//! Counting in periods.

use vstd::prelude::*;

verus! {

/// Whether `index`, counted from zero, is the last of a period of `period`; a
/// period of zero never ends.
pub open spec fn closes(index: int, period: int) -> bool {
    period > 0 && (index + 1) % period == 0
}

/// A period ends on its last index and on no other, and stepping past that index
/// is what counts one more whole period.
pub proof fn a_period_ends_on_its_last_index(index: nat, period: nat)
    requires
        period > 0,
    ensures
        closes(index as int, period as int) <==> index % period == period - 1,
        (index + 1) / period == index / period + if closes(index as int, period as int) {
            1nat
        } else {
            0nat
        },
{
    let (i, p) = (index as int, period as int);
    let (q, r) = (i / p, i % p);
    vstd::arithmetic::div_mod::lemma_fundamental_div_mod(i, p);
    if r == p - 1 {
        assert(i + 1 == (q + 1) * p + 0) by (nonlinear_arith)
            requires
                i == p * q + r,
                r == p - 1,
        ;
        vstd::arithmetic::div_mod::lemma_fundamental_div_mod_converse(i + 1, p, q + 1, 0);
    } else {
        assert(i + 1 == q * p + (r + 1)) by (nonlinear_arith)
            requires
                i == p * q + r,
        ;
        vstd::arithmetic::div_mod::lemma_fundamental_div_mod_converse(i + 1, p, q, r + 1);
    }
}

} // verus!
