//! The mathematics of the round-robin cursor: one advance is "add one, wrap
//! around the current length", and repeating it walks the whole set of slots
//! exactly once before it repeats.

use vstd::prelude::*;
use vstd::arithmetic::div_mod::lemma_add_mod_noop_right;
use vstd::arithmetic::div_mod::lemma_fundamental_div_mod;
use vstd::arithmetic::div_mod::lemma_fundamental_div_mod_converse_mod;
use vstd::arithmetic::div_mod::lemma_mod_add_multiples_vanish;
use vstd::arithmetic::div_mod::lemma_mod_division_less_than_divisor;
use vstd::arithmetic::div_mod::lemma_small_mod;

verus! {

/// The slot selected by one advance of the cursor over `len` slots: the
/// cursor moves one step forward and wraps around the current length. The
/// wrap is against `cursor + 1`, so the selected slot is in range even when
/// the cursor itself is not (as after the node set was replaced by a shorter
/// one).
pub open spec fn sel_index(cursor: nat, len: nat) -> nat
    recommends
        len > 0,
{
    (((cursor + 1) as int) % (len as int)) as nat
}

/// The cursor after `k` consecutive advances over `len` slots, starting from
/// `cursor`.
pub open spec fn cursor_after(cursor: nat, len: nat, k: nat) -> nat
    decreases k,
{
    if k == 0 {
        cursor
    } else {
        sel_index(cursor_after(cursor, len, (k - 1) as nat), len)
    }
}

/// The number of advances, between 1 and `len`, that move the cursor from
/// `cursor` to the slot `target`.
pub open spec fn steps_to_reach(cursor: nat, len: nat, target: nat) -> nat
    recommends
        len > 0,
        target < len,
{
    let r = (cursor as int) % (len as int);
    if target > r {
        (target - r) as nat
    } else {
        (target + len - r) as nat
    }
}

/// Advancing from a wrapped cursor lands on the same slot as advancing from
/// the unwrapped one.
pub(crate) proof fn lemma_advance_mod_noop(cursor: int, len: int)
    requires
        len > 0,
        cursor >= 0,
    ensures
        (cursor % len + 1) % len == (cursor + 1) % len,
{
    lemma_add_mod_noop_right(1, cursor, len);
}

/// After `k >= 1` advances over `len` slots the cursor stands at
/// `(cursor + k) % len`.
pub proof fn lemma_cursor_after_closed_form(cursor: nat, len: nat, k: nat)
    requires
        len > 0,
        k >= 1,
    ensures
        cursor_after(cursor, len, k) == ((cursor + k) as int) % (len as int),
    decreases k,
{
    if k == 1 {
        assert(cursor_after(cursor, len, 0) == cursor);
        assert(cursor_after(cursor, len, 1) == sel_index(cursor, len));
    } else {
        lemma_cursor_after_closed_form(cursor, len, (k - 1) as nat);
        lemma_advance_mod_noop((cursor + k - 1) as int, len as int);
    }
}

/// Within one full turn, no slot is selected twice: the `len` consecutive
/// advances starting anywhere land on pairwise distinct slots.
pub proof fn lemma_cycle_distinct(cursor: nat, len: nat)
    requires
        len > 0,
    ensures
        forall|i: nat, j: nat|
            1 <= i < j <= len ==> #[trigger] cursor_after(cursor, len, i) != #[trigger] cursor_after(
                cursor,
                len,
                j,
            ),
{
    assert forall|i: nat, j: nat|
        1 <= i < j <= len implies #[trigger] cursor_after(cursor, len, i)
        != #[trigger] cursor_after(cursor, len, j) by {
        lemma_cursor_after_closed_form(cursor, len, i);
        lemma_cursor_after_closed_form(cursor, len, j);
        let ll = len as int;
        let a = (cursor + i) as int;
        let b = (cursor + j) as int;
        lemma_fundamental_div_mod(a, ll);
        lemma_fundamental_div_mod(b, ll);
        if a % ll == b % ll {
            let q1 = a / ll;
            let q2 = b / ll;
            assert(b - a == ll * (q2 - q1)) by (nonlinear_arith)
                requires
                    a == ll * q1 + a % ll,
                    b == ll * q2 + b % ll,
                    a % ll == b % ll,
            ;
            assert(false) by (nonlinear_arith)
                requires
                    b - a == ll * (q2 - q1),
                    0 < b - a < ll,
            ;
        }
    }
}

/// Every slot is reached within one full turn: starting anywhere, the slot
/// `target` is selected after `steps_to_reach` advances, a count between 1
/// and `len`.
pub proof fn lemma_cycle_covers(cursor: nat, len: nat, target: nat)
    requires
        len > 0,
        target < len,
    ensures
        1 <= steps_to_reach(cursor, len, target) <= len,
        cursor_after(cursor, len, steps_to_reach(cursor, len, target)) == target,
{
    let c = cursor as int;
    let ll = len as int;
    let t = target as int;
    lemma_fundamental_div_mod(c, ll);
    lemma_mod_division_less_than_divisor(c, ll);
    let q = c / ll;
    let r = c % ll;
    let i = steps_to_reach(cursor, len, target);
    lemma_cursor_after_closed_form(cursor, len, i);
    if t > r {
        assert(c + i == q * ll + t) by (nonlinear_arith)
            requires
                c == ll * q + r,
                i == t - r,
        ;
        lemma_fundamental_div_mod_converse_mod(c + i, ll, q, t);
    } else {
        assert(c + i == (q + 1) * ll + t) by (nonlinear_arith)
            requires
                c == ll * q + r,
                i == t + ll - r,
        ;
        lemma_fundamental_div_mod_converse_mod(c + i, ll, q + 1, t);
    }
}

/// One full turn later the cursor repeats: the slot selected on advance
/// `k + len` is the slot selected on advance `k`, so the selection sequence
/// is periodic with period `len`.
pub proof fn lemma_cycle_periodic(cursor: nat, len: nat, k: nat)
    requires
        len > 0,
        k >= 1,
    ensures
        cursor_after(cursor, len, k + len) == cursor_after(cursor, len, k),
{
    lemma_cursor_after_closed_form(cursor, len, k);
    lemma_cursor_after_closed_form(cursor, len, k + len);
    lemma_mod_add_multiples_vanish((cursor + k) as int, len as int);
}

/// The first advance from a fresh cursor selects slot 1, not slot 0, when
/// there are at least two slots: the cursor advances before it reads.
pub proof fn lemma_first_advance(len: nat)
    requires
        len > 0,
    ensures
        sel_index(0, len) == if len == 1 {
            0nat
        } else {
            1nat
        },
{
    if len == 1 {
        assert(1int % 1int == 0int);
    } else {
        lemma_small_mod(1, len);
    }
}

} // verus!
