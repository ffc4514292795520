//! The coding region as arithmetic: a packed value's payload is a sequence
//! of fixed-width units (6-bit codes or 15-bit deltas) folded into an
//! integer, left-justified by a final shift.  This module defines the fold,
//! the inverse extraction the decoder performs, and the laws relating them:
//! extraction inverts the fold, and lexicographic order of unit sequences is
//! integer order of the folded values.

use vstd::arithmetic::div_mod::lemma_fundamental_div_mod_converse;
use vstd::arithmetic::power2::lemma_pow2_adds;
use vstd::arithmetic::power2::lemma_pow2_pos;
use vstd::arithmetic::power2::pow2;
use vstd::prelude::*;

verus! {

/// The units of `us`, each `k` bits wide, packed big-endian into one
/// integer: `us[0]` ends up in the most significant position.
pub open spec fn fold_units(k: nat, us: Seq<nat>) -> nat
    decreases us.len(),
{
    if us.len() == 0 {
        0
    } else {
        us[0] * pow2(k * ((us.len() - 1) as nat)) + fold_units(k, us.drop_first())
    }
}

/// Every unit fits in `k` bits.
pub open spec fn units_in_range(k: nat, us: Seq<nat>) -> bool {
    forall|i: int| 0 <= i < us.len() ==> 0 < #[trigger] us[i] < pow2(k)
}

/// A fold of in-range units fits in `k * len` bits.
pub proof fn lemma_fold_units_bound(k: nat, us: Seq<nat>)
    requires
        units_in_range(k, us),
    ensures
        fold_units(k, us) < pow2(k * us.len()),
    decreases us.len(),
{
    if us.len() == 0 {
        lemma_pow2_pos(0);
    } else {
        let l1 = (us.len() - 1) as nat;
        lemma_fold_units_bound(k, us.drop_first());
        lemma_pow2_adds(k, k * l1);
        assert(k * us.len() == k + k * l1) by (nonlinear_arith)
            requires
                us.len() == l1 + 1,
        ;
        assert(us[0] * pow2(k * l1) + fold_units(k, us.drop_first()) < pow2(k) * pow2(k * l1))
            by (nonlinear_arith)
            requires
                us[0] < pow2(k),
                fold_units(k, us.drop_first()) < pow2(k * l1),
        ;
    }
}

/// Folding one more unit onto the right multiplies by `pow2(k)` and adds it.
pub proof fn lemma_fold_units_push(k: nat, us: Seq<nat>, u: nat)
    ensures
        fold_units(k, us.push(u)) == fold_units(k, us) * pow2(k) + u,
    decreases us.len(),
{
    if us.len() == 0 {
        assert(us.push(u).drop_first() =~= Seq::<nat>::empty());
        assert(us.push(u)[0] == u);
        assert(fold_units(k, Seq::<nat>::empty()) == 0);
        assert(fold_units(k, us.push(u)) == u * pow2(k * 0) + 0);
        vstd::arithmetic::power2::lemma2_to64();
        assert(us =~= Seq::<nat>::empty());
        assert(fold_units(k, us) == 0);
        assert(fold_units(k, us) * pow2(k) == 0) by (nonlinear_arith)
            requires
                fold_units(k, us) == 0,
        ;
    } else {
        let l1 = (us.len() - 1) as nat;
        assert(us.push(u).drop_first() =~= us.drop_first().push(u));
        lemma_fold_units_push(k, us.drop_first(), u);
        lemma_pow2_adds(k * l1, k);
        assert(k * us.len() == k * l1 + k) by (nonlinear_arith)
            requires
                us.len() == l1 + 1,
        ;
        assert(us[0] * pow2(k * us.len()) + (fold_units(k, us.drop_first()) * pow2(k) + u) == (us[0]
            * pow2(k * l1) + fold_units(k, us.drop_first())) * pow2(k) + u) by (nonlinear_arith)
            requires
                pow2(k * us.len()) == pow2(k * l1) * pow2(k),
        ;
    }
}

/// The units pulled off the top of a 128-bit-justified accumulator, `k` bits
/// at a time, until a zero unit or `rem` pulls.
pub open spec fn extract_units(k: nat, acc: nat, rem: nat) -> Seq<nat>
    recommends
        0 < k <= 128,
        acc < pow2(128),
    decreases rem,
{
    if rem == 0 {
        Seq::empty()
    } else {
        let u = acc / pow2((128 - k) as nat);
        if u == 0 {
            Seq::empty()
        } else {
            seq![u] + extract_units(k, (acc % pow2((128 - k) as nat)) * pow2(k), (rem - 1) as nat)
        }
    }
}

/// Extraction inverts the fold: pulling units off a left-justified fold of
/// in-range units gives the units back.
pub proof fn lemma_extract_of_fold(k: nat, us: Seq<nat>, rem: nat)
    requires
        0 < k <= 128,
        units_in_range(k, us),
        k * us.len() <= 128,
        us.len() <= rem,
    ensures
        extract_units(k, fold_units(k, us) * pow2((128 - k * us.len()) as nat), rem) == us,
    decreases us.len(),
{
    if us.len() == 0 {
        assert(fold_units(k, us) * pow2(128) == 0) by (nonlinear_arith)
            requires
                fold_units(k, us) == 0,
        ;
        if rem > 0 {
            lemma_pow2_pos((128 - k) as nat);
            assert(0nat / pow2((128 - k) as nat) == 0);
        }
        assert(extract_units(k, 0, rem) =~= us);
    } else {
        let l1 = (us.len() - 1) as nat;
        let rest = us.drop_first();
        let fr = fold_units(k, rest);
        let acc = fold_units(k, us) * pow2((128 - k * us.len()) as nat);
        let dk = pow2((128 - k) as nat);
        lemma_fold_units_bound(k, rest);
        lemma_pow2_pos((128 - k) as nat);
        lemma_pow2_pos((128 - k * us.len()) as nat);
        lemma_pow2_pos(k * l1);
        // acc == us[0] * pow2(128 - k) + fr * pow2(128 - k * us.len())
        assert(k * us.len() == k + k * l1) by (nonlinear_arith)
            requires
                us.len() == l1 + 1,
        ;
        lemma_pow2_adds(k * l1, (128 - k * us.len()) as nat);
        assert(acc == us[0] * dk + fr * pow2((128 - k * us.len()) as nat)) by (nonlinear_arith)
            requires
                acc == (us[0] * pow2(k * l1) + fr) * pow2((128 - k * us.len()) as nat),
                pow2(k * l1) * pow2((128 - k * us.len()) as nat) == dk,
        ;
        // the tail stays below the top unit's place value
        assert(fr * pow2((128 - k * us.len()) as nat) < dk) by (nonlinear_arith)
            requires
                fr < pow2(k * l1),
                pow2((128 - k * us.len()) as nat) > 0,
                pow2(k * l1) * pow2((128 - k * us.len()) as nat) == dk,
        ;
        lemma_fundamental_div_mod_converse(
            acc as int,
            dk as int,
            us[0] as int,
            (fr * pow2((128 - k * us.len()) as nat)) as int,
        );
        assert(acc / dk == us[0]);
        assert(acc % dk == fr * pow2((128 - k * us.len()) as nat));
        // re-justify the tail and recurse
        lemma_pow2_adds((128 - k * us.len()) as nat, k);
        assert((fr * pow2((128 - k * us.len()) as nat)) * pow2(k) == fr * pow2(
            (128 - k * l1) as nat,
        )) by (nonlinear_arith)
            requires
                pow2((128 - k * us.len()) as nat) * pow2(k) == pow2((128 - k * l1) as nat),
        ;
        lemma_extract_of_fold(k, rest, (rem - 1) as nat);
        assert(extract_units(k, acc, rem) =~= us);
    }
}

/// A padded coding region of in-range units fits in `k * cap` bits.
pub proof fn lemma_padded_bound(k: nat, us: Seq<nat>, cap: nat)
    requires
        units_in_range(k, us),
        us.len() <= cap,
    ensures
        padded(k, us, cap) < pow2(k * cap),
{
    lemma_fold_units_bound(k, us);
    lemma_pow2_pos(k * ((cap - us.len()) as nat));
    lemma_pow2_adds(k * us.len(), k * ((cap - us.len()) as nat));
    assert(k * us.len() + k * ((cap - us.len()) as nat) == k * cap) by (nonlinear_arith)
        requires
            us.len() <= cap,
    ;
    vstd::arithmetic::mul::lemma_mul_strict_inequality(
        fold_units(k, us) as int,
        pow2(k * us.len()) as int,
        pow2(k * ((cap - us.len()) as nat)) as int,
    );
}

/// Strict lexicographic order on unit sequences: a proper prefix sorts
/// before its extensions.
pub open spec fn units_lt(us: Seq<nat>, vs: Seq<nat>) -> bool
    decreases us.len(),
{
    vs.len() > 0 && (us.len() == 0 || us[0] < vs[0] || (us[0] == vs[0] && units_lt(
        us.drop_first(),
        vs.drop_first(),
    )))
}

/// The whole coding region built from `us`: the fold, left-justified by
/// padding the `cap - len` unused slots with zeros on the right.
pub open spec fn padded(k: nat, us: Seq<nat>, cap: nat) -> nat
    recommends
        us.len() <= cap,
{
    fold_units(k, us) * pow2(k * ((cap - us.len()) as nat))
}

/// Splitting the first unit off a padded coding region.
pub proof fn lemma_padded_peel(k: nat, us: Seq<nat>, cap: nat)
    requires
        1 <= us.len() <= cap,
    ensures
        padded(k, us, cap) == us[0] * pow2(k * ((cap - 1) as nat)) + padded(
            k,
            us.drop_first(),
            (cap - 1) as nat,
        ),
{
    let l1 = (us.len() - 1) as nat;
    let pad = (cap - us.len()) as nat;
    let pu = pow2(k * pad);
    let fr = fold_units(k, us.drop_first());
    lemma_pow2_adds(k * l1, k * pad);
    assert(k * l1 + k * pad == k * ((cap - 1) as nat)) by (nonlinear_arith)
        requires
            us.len() == l1 + 1,
            us.len() <= cap,
            pad == cap - us.len(),
    ;
    assert((us[0] * pow2(k * l1) + fr) * pu == us[0] * pow2(k * ((cap - 1) as nat)) + fr * pu)
        by (nonlinear_arith)
        requires
            pow2(k * l1) * pu == pow2(k * ((cap - 1) as nat)),
    ;
}

/// A nonempty in-range unit sequence has a positive coding region.
pub proof fn lemma_padded_pos(k: nat, us: Seq<nat>, cap: nat)
    requires
        units_in_range(k, us),
        1 <= us.len() <= cap,
    ensures
        padded(k, us, cap) > 0,
{
    lemma_padded_peel(k, us, cap);
    lemma_pow2_pos(k * ((cap - 1) as nat));
    assert(us[0] * pow2(k * ((cap - 1) as nat)) > 0) by (nonlinear_arith)
        requires
            us[0] >= 1,
            pow2(k * ((cap - 1) as nat)) > 0,
    ;
}

/// Lexicographic order of in-range unit sequences is integer order of their
/// padded coding regions.
pub proof fn lemma_padded_order(k: nat, us: Seq<nat>, vs: Seq<nat>, cap: nat)
    requires
        units_in_range(k, us),
        units_in_range(k, vs),
        us.len() <= cap,
        vs.len() <= cap,
        units_lt(us, vs),
    ensures
        padded(k, us, cap) < padded(k, vs, cap),
    decreases us.len(),
{
    if us.len() == 0 {
        assert(padded(k, us, cap) == 0) by (nonlinear_arith)
            requires
                fold_units(k, us) == 0,
        ;
        lemma_padded_pos(k, vs, cap);
    } else {
        let c1 = (cap - 1) as nat;
        let a = pow2(k * c1);
        lemma_padded_peel(k, us, cap);
        lemma_padded_peel(k, vs, cap);
        lemma_pow2_pos(k * c1);
        if us[0] < vs[0] {
            // everything below the first unit stays under one place value
            let ur = us.drop_first();
            lemma_fold_units_bound(k, ur);
            let l1 = (us.len() - 1) as nat;
            let pad = (cap - us.len()) as nat;
            lemma_pow2_adds(k * l1, k * pad);
            assert(k * l1 + k * pad == k * c1) by (nonlinear_arith)
                requires
                    us.len() == l1 + 1,
                    us.len() <= cap,
                    pad == cap - us.len(),
                    c1 == cap - 1,
            ;
            assert(pow2(k * ur.len()) * pow2(k * ((c1 - ur.len()) as nat)) == a) by {
                lemma_pow2_adds(k * ur.len(), k * ((c1 - ur.len()) as nat));
                assert(k * ur.len() + k * ((c1 - ur.len()) as nat) == k * c1) by (nonlinear_arith)
                    requires
                        ur.len() <= c1,
                ;
            }
            lemma_pow2_pos(k * ((c1 - ur.len()) as nat));
            assert(padded(k, ur, c1) < a) by (nonlinear_arith)
                requires
                    padded(k, ur, c1) == fold_units(k, ur) * pow2(k * ((c1 - ur.len()) as nat)),
                    fold_units(k, ur) < pow2(k * ur.len()),
                    pow2(k * ur.len()) * pow2(k * ((c1 - ur.len()) as nat)) == a,
                    pow2(k * ((c1 - ur.len()) as nat)) > 0,
            ;
            assert(us[0] * a + a <= vs[0] * a) by (nonlinear_arith)
                requires
                    us[0] + 1 <= vs[0],
                    a > 0,
            ;
        } else {
            lemma_padded_order(k, us.drop_first(), vs.drop_first(), c1);
        }
    }
}

} // verus!
