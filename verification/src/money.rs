//! Sums over amounts and payments.
use vstd::prelude::*;

use crate::context::occurs;
use crate::types::{Address, Payment};

verus! {

/// The sum of `amounts`.
pub open spec fn total(amounts: Seq<i128>) -> int
    decreases amounts.len(),
{
    if amounts.len() == 0 {
        0
    } else {
        total(amounts.drop_last()) + amounts.last()
    }
}

/// Every amount is above zero.
pub open spec fn all_positive(amounts: Seq<i128>) -> bool {
    forall|i: int| 0 <= i < amounts.len() ==> amounts[i] > 0
}

/// The sum of all `payments`.
pub open spec fn paid(payments: Seq<Payment>) -> int
    decreases payments.len(),
{
    if payments.len() == 0 {
        0
    } else {
        paid(payments.drop_last()) + payments.last().amount
    }
}

/// The sum of the `payments` that `who` made.
pub open spec fn paid_by(payments: Seq<Payment>, who: Address) -> int
    decreases payments.len(),
{
    if payments.len() == 0 {
        0
    } else {
        paid_by(payments.drop_last(), who) + if payments.last().payer == who {
            payments.last().amount as int
        } else {
            0
        }
    }
}

/// Every payment is above zero.
pub open spec fn all_paid_positive(payments: Seq<Payment>) -> bool {
    forall|i: int| 0 <= i < payments.len() ==> (#[trigger] payments[i]).amount > 0
}

/// Everyone who made one of the `payments`, each once, in the order of their first payment.
pub open spec fn payers(payments: Seq<Payment>) -> Seq<Address>
    decreases payments.len(),
{
    if payments.len() == 0 {
        Seq::empty()
    } else {
        let earlier = payers(payments.drop_last());
        if earlier.contains(payments.last().payer) {
            earlier
        } else {
            earlier.push(payments.last().payer)
        }
    }
}

/// One more amount adds itself to the sum.
pub proof fn lemma_total_push(amounts: Seq<i128>, amount: i128)
    ensures
        total(amounts.push(amount)) == total(amounts) + amount,
{
    assert(amounts.push(amount).drop_last() == amounts);
}

/// A sum of positive amounts is at least the sum of any of its prefixes.
pub proof fn lemma_total_prefix(amounts: Seq<i128>, n: int)
    requires
        all_positive(amounts),
        0 <= n <= amounts.len(),
    ensures
        0 <= total(amounts.take(n)) <= total(amounts),
    decreases amounts.len(),
{
    if n == amounts.len() {
        assert(amounts.take(n) == amounts);
        if n > 0 {
            assert(amounts.drop_last().take(n - 1) == amounts.drop_last());
            lemma_total_prefix(amounts.drop_last(), n - 1);
        }
    } else {
        assert(amounts.drop_last().take(n) == amounts.take(n));
        lemma_total_prefix(amounts.drop_last(), n);
    }
}

/// One more payment adds itself to what has been paid, and to its payer's share alone.
pub proof fn lemma_paid_push(payments: Seq<Payment>, payment: Payment)
    ensures
        paid(payments.push(payment)) == paid(payments) + payment.amount,
        forall|who: Address|
            #![trigger paid_by(payments.push(payment), who)]
            paid_by(payments.push(payment), who) == paid_by(payments, who) + if who
                == payment.payer {
                payment.amount as int
            } else {
                0
            },
{
    assert(payments.push(payment).drop_last() == payments);
}

/// Nobody has paid more than has been paid in all, counted up to any payment.
pub proof fn lemma_paid_by_prefix(payments: Seq<Payment>, who: Address, n: int)
    requires
        all_paid_positive(payments),
        0 <= n <= payments.len(),
    ensures
        0 <= paid_by(payments.take(n), who) <= paid_by(payments, who) <= paid(payments),
    decreases payments.len(),
{
    if n == payments.len() {
        assert(payments.take(n) == payments);
        if n > 0 {
            assert(payments.drop_last().take(n - 1) == payments.drop_last());
            lemma_paid_by_prefix(payments.drop_last(), who, n - 1);
        }
    } else {
        assert(payments.drop_last().take(n) == payments.take(n));
        lemma_paid_by_prefix(payments.drop_last(), who, n);
    }
}

/// What has been paid in all is at least what had been paid at any time before.
pub proof fn lemma_paid_prefix(payments: Seq<Payment>, n: int)
    requires
        all_paid_positive(payments),
        0 <= n <= payments.len(),
    ensures
        0 <= paid(payments.take(n)) <= paid(payments),
    decreases payments.len(),
{
    if n == payments.len() {
        assert(payments.take(n) == payments);
        if n > 0 {
            assert(payments.drop_last().take(n - 1) == payments.drop_last());
            lemma_paid_prefix(payments.drop_last(), n - 1);
        }
    } else {
        assert(payments.drop_last().take(n) == payments.take(n));
        lemma_paid_prefix(payments.drop_last(), n);
    }
}

/// Everyone who paid is among the payers, once.
pub proof fn lemma_payers(payments: Seq<Payment>)
    ensures
        payers(payments).no_duplicates(),
        payers(payments).len() <= payments.len(),
        forall|i: int|
            0 <= i < payments.len() ==> payers(payments).contains((#[trigger] payments[i]).payer),
        forall|j: int|
            0 <= j < payers(payments).len() ==> exists|i: int|
                0 <= i < payments.len() && (#[trigger] payments[i]).payer == #[trigger] payers(
                    payments,
                )[j],
    decreases payments.len(),
{
    if payments.len() > 0 {
        let rest = payments.drop_last();
        let earlier = payers(rest);
        lemma_payers(rest);
        assert forall|i: int| 0 <= i < payments.len() implies payers(payments).contains(
            (#[trigger] payments[i]).payer,
        ) by {
            if i < rest.len() {
                assert(rest[i] == payments[i]);
                let j = choose|j: int| 0 <= j < earlier.len() && earlier[j] == payments[i].payer;
                assert(payers(payments)[j] == payments[i].payer);
            } else if !earlier.contains(payments[i].payer) {
                assert(payers(payments)[earlier.len() as int] == payments[i].payer);
            }
        }
        assert forall|j: int| 0 <= j < payers(payments).len() implies exists|i: int|
            0 <= i < payments.len() && (#[trigger] payments[i]).payer == #[trigger] payers(
                payments,
            )[j] by {
            if j < earlier.len() {
                let i = choose|i: int|
                    0 <= i < rest.len() && (#[trigger] rest[i]).payer == earlier[j];
                assert(payments[i].payer == payers(payments)[j]);
            } else {
                assert(payments[payments.len() - 1].payer == payers(payments)[j]);
            }
        }
    }
}

/// Somebody who is not among the payers has paid nothing.
pub proof fn lemma_paid_by_stranger(payments: Seq<Payment>, who: Address)
    requires
        !payers(payments).contains(who),
    ensures
        paid_by(payments, who) == 0,
    decreases payments.len(),
{
    if payments.len() > 0 {
        let earlier = payers(payments.drop_last());
        if earlier.contains(who) {
            let j = choose|j: int| 0 <= j < earlier.len() && earlier[j] == who;
            assert(payers(payments)[j] == who);
        }
        if payments.last().payer == who {
            assert(payers(payments)[payers(payments).len() - 1] == who || earlier.contains(who));
        }
        lemma_paid_by_stranger(payments.drop_last(), who);
    }
}

/// The sum of `amounts`, where it fits.
pub(crate) fn checked_total(amounts: &Vec<i128>) -> (sum: Option<i128>)
    requires
        all_positive(amounts@),
    ensures
        match sum {
            Some(t) => t == total(amounts@),
            None => total(amounts@) > i128::MAX,
        },
{
    let mut sum: i128 = 0;
    let mut i: usize = 0;
    while i < amounts.len()
        invariant
            i <= amounts@.len(),
            all_positive(amounts@),
            sum == total(amounts@.take(i as int)),
            sum >= 0,
        decreases amounts@.len() - i,
    {
        proof {
            assert(amounts@.take(i + 1) == amounts@.take(i as int).push(amounts@[i as int]));
            lemma_total_push(amounts@.take(i as int), amounts@[i as int]);
            lemma_total_prefix(amounts@, i + 1);
        }
        if amounts[i] > i128::MAX - sum {
            return None;
        }
        sum = sum + amounts[i];
        i = i + 1;
    }
    assert(amounts@.take(i as int) == amounts@);
    Some(sum)
}

/// Whether every amount is above zero.
pub(crate) fn are_positive(amounts: &Vec<i128>) -> (yes: bool)
    ensures
        yes == all_positive(amounts@),
{
    let mut i: usize = 0;
    while i < amounts.len()
        invariant
            i <= amounts@.len(),
            forall|j: int| 0 <= j < i ==> amounts@[j] > 0,
        decreases amounts@.len() - i,
    {
        if amounts[i] <= 0 {
            return false;
        }
        i = i + 1;
    }
    true
}

/// The sum of the `payments` that `who` made.
pub(crate) fn sum_paid_by(payments: &Vec<Payment>, who: Address) -> (sum: i128)
    requires
        all_paid_positive(payments@),
        paid(payments@) <= i128::MAX,
    ensures
        sum == paid_by(payments@, who),
{
    let mut sum: i128 = 0;
    let mut i: usize = 0;
    while i < payments.len()
        invariant
            i <= payments@.len(),
            all_paid_positive(payments@),
            paid(payments@) <= i128::MAX,
            sum == paid_by(payments@.take(i as int), who),
            sum >= 0,
        decreases payments@.len() - i,
    {
        proof {
            assert(payments@.take(i + 1) == payments@.take(i as int).push(payments@[i as int]));
            lemma_paid_push(payments@.take(i as int), payments@[i as int]);
            lemma_paid_by_prefix(payments@, who, i + 1);
        }
        if payments[i].payer == who {
            sum = sum + payments[i].amount;
        }
        i = i + 1;
    }
    assert(payments@.take(i as int) == payments@);
    sum
}

/// Everyone who made one of the `payments`, each once, in the order of their first payment.
pub(crate) fn distinct_payers(payments: &Vec<Payment>) -> (who: Vec<Address>)
    ensures
        who@ == payers(payments@),
{
    let mut who: Vec<Address> = Vec::new();
    let mut i: usize = 0;
    while i < payments.len()
        invariant
            i <= payments@.len(),
            who@ == payers(payments@.take(i as int)),
        decreases payments@.len() - i,
    {
        assert(payments@.take(i + 1).drop_last() == payments@.take(i as int));
        let payer = payments[i].payer;
        if !occurs(&who, payer) {
            who.push(payer);
        }
        i = i + 1;
    }
    assert(payments@.take(i as int) == payments@);
    who
}

/// Whether every payment is above zero.
pub(crate) fn are_paid_positive(payments: &Vec<Payment>) -> (yes: bool)
    ensures
        yes == all_paid_positive(payments@),
{
    let mut i: usize = 0;
    while i < payments.len()
        invariant
            i <= payments@.len(),
            forall|j: int| 0 <= j < i ==> (#[trigger] payments@[j]).amount > 0,
        decreases payments@.len() - i,
    {
        if payments[i].amount <= 0 {
            return false;
        }
        i = i + 1;
    }
    true
}

/// The sum of all `payments`, where it fits.
pub(crate) fn checked_paid(payments: &Vec<Payment>) -> (sum: Option<i128>)
    requires
        all_paid_positive(payments@),
    ensures
        match sum {
            Some(t) => t == paid(payments@),
            None => paid(payments@) > i128::MAX,
        },
{
    let mut sum: i128 = 0;
    let mut i: usize = 0;
    while i < payments.len()
        invariant
            i <= payments@.len(),
            all_paid_positive(payments@),
            sum == paid(payments@.take(i as int)),
            sum >= 0,
        decreases payments@.len() - i,
    {
        proof {
            assert(payments@.take(i + 1) == payments@.take(i as int).push(payments@[i as int]));
            lemma_paid_push(payments@.take(i as int), payments@[i as int]);
            lemma_paid_prefix(payments@, i + 1);
        }
        if payments[i].amount > i128::MAX - sum {
            return None;
        }
        sum = sum + payments[i].amount;
        i = i + 1;
    }
    assert(payments@.take(i as int) == payments@);
    Some(sum)
}

} // verus!
