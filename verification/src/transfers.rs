//! The token movements that calls ask for.
use vstd::prelude::*;

use crate::context::{Context, Effect, Transfer};
use crate::model::{payouts, refunds, tip_share, tips};
use crate::money::{distinct_payers, payers, sum_paid_by};
use crate::types::{Address, Invoice};

verus! {

/// Asks for one transfer to each recipient, of the amount owed to them.
pub(crate) fn pay_recipients(ctx: &mut Context, invoice: &Invoice)
    requires
        invoice@.wf(),
    ensures
        final(ctx)@ == old(ctx)@.asking(payouts(old(ctx)@.contract, invoice@)),
{
    let ghost all = payouts(ctx@.contract, invoice@);
    assert(ctx@ == old(ctx)@.asking(all.take(0)));
    let mut i: usize = 0;
    while i < invoice.recipients.len()
        invariant
            i <= invoice@.recipients.len(),
            invoice@.recipients.len() == invoice@.amounts.len(),
            all == payouts(old(ctx)@.contract, invoice@),
            ctx@ == old(ctx)@.asking(all.take(i as int)),
        decreases invoice@.recipients.len() - i,
    {
        ctx.ask(
            Effect::Transfer(
                Transfer {
                    token: invoice.token,
                    from: ctx.contract,
                    to: invoice.recipients[i],
                    amount: invoice.amounts[i],
                },
            ),
        );
        i = i + 1;
        assert(all.take(i as int) == all.take(i - 1) + seq![all[i - 1]]);
        assert(ctx@ == old(ctx)@.asking(all.take(i as int)));
    }
    assert(all.take(i as int) == all);
}

/// Asks for the tip to go to the recipients in equal shares.
pub(crate) fn give_tip(ctx: &mut Context, invoice: &Invoice, payer: Address, tip: i128)
    requires
        invoice@.wf(),
        tip >= 0,
    ensures
        final(ctx)@ == old(ctx)@.asking(tips(invoice@, payer, tip as int)),
{
    let share: i128 = tip / (invoice.recipients.len() as i128);
    if share > 0 {
        let ghost all = tips(invoice@, payer, tip as int);
        assert(ctx@ == old(ctx)@.asking(all.take(0)));
        let mut i: usize = 0;
        while i < invoice.recipients.len()
            invariant
                i <= invoice@.recipients.len(),
                share > 0,
                share == tip_share(tip as int, invoice@.recipients.len()),
                all == tips(invoice@, payer, tip as int),
                ctx@ == old(ctx)@.asking(all.take(i as int)),
            decreases invoice@.recipients.len() - i,
        {
            ctx.ask(
                Effect::Transfer(
                    Transfer {
                        token: invoice.token,
                        from: payer,
                        to: invoice.recipients[i],
                        amount: share,
                    },
                ),
            );
            i = i + 1;
            assert(all.take(i as int) == all.take(i - 1) + seq![all[i - 1]]);
            assert(ctx@ == old(ctx)@.asking(all.take(i as int)));
        }
        assert(all.take(i as int) == all);
    } else {
        assert(ctx@ == old(ctx)@.asking(tips(invoice@, payer, tip as int)));
    }
}

/// Asks for one transfer to each payer, of all that they paid.
pub(crate) fn repay_payers(ctx: &mut Context, invoice: &Invoice)
    requires
        invoice@.wf(),
    ensures
        final(ctx)@ == old(ctx)@.asking(refunds(old(ctx)@.contract, invoice@)),
{
    let ghost all = refunds(ctx@.contract, invoice@);
    let who = distinct_payers(&invoice.payments);
    assert(ctx@ == old(ctx)@.asking(all.take(0)));
    let mut i: usize = 0;
    while i < who.len()
        invariant
            i <= who@.len(),
            invoice@.wf(),
            who@ == payers(invoice@.payments),
            all == refunds(old(ctx)@.contract, invoice@),
            ctx@ == old(ctx)@.asking(all.take(i as int)),
        decreases who@.len() - i,
    {
        ctx.ask(
            Effect::Transfer(
                Transfer {
                    token: invoice.token,
                    from: ctx.contract,
                    to: who[i],
                    amount: sum_paid_by(&invoice.payments, who[i]),
                },
            ),
        );
        i = i + 1;
        assert(all.take(i as int) == all.take(i - 1) + seq![all[i - 1]]);
        assert(ctx@ == old(ctx)@.asking(all.take(i as int)));
    }
    assert(all.take(i as int) == all);
}

} // verus!
