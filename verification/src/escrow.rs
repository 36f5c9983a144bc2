//! Where the money goes: what the contract takes in, holds and pays out.
use vstd::prelude::*;

use crate::context::{ContextView, EffectView, Transfer};
use crate::laws::{law_every_history_is_sound, run};
use crate::model::{
    created, credited, entry, month_ahead, paid_out, payment_recorded, payouts, refunds,
    successor_overflows, tip_share, tips, State,
};
use crate::money::{
    lemma_paid_by_prefix, lemma_paid_by_stranger, lemma_paid_prefix, lemma_paid_push, lemma_payers,
    paid, paid_by, payers, total,
};
use crate::requests::{accepted, after, outcome, Request};
use crate::types::{Address, AuditAction, AuditEntry, InvoiceStatus, InvoiceView, Payment};
use crate::validity::{lemma_paid_out_valid, lemma_payment_taken_valid};

verus! {

// ---------------------------------------------------------------------------
// Flows
// ---------------------------------------------------------------------------
/// What `effect` moves of `token` to `to`, out of the account of `from`.
pub open spec fn moved(effect: EffectView, token: Address, from: Address, to: Address) -> int {
    match effect {
        EffectView::Transfer(t) => if t.token == token && t.from == from && t.to == to {
            t.amount as int
        } else {
            0
        },
        _ => 0,
    }
}

/// What `effects` move of `token` from `from` to `to` in all.
pub open spec fn sent(
    effects: Seq<EffectView>,
    token: Address,
    from: Address,
    to: Address,
) -> int
    decreases effects.len(),
{
    if effects.len() == 0 {
        0
    } else {
        sent(effects.drop_last(), token, from, to) + moved(effects.last(), token, from, to)
    }
}

/// By how much `effect` changes the balance of `token` that `who` has.
pub open spec fn gain(effect: EffectView, token: Address, who: Address) -> int {
    match effect {
        EffectView::Transfer(t) => if t.token != token || t.from == t.to {
            0
        } else if t.to == who {
            t.amount as int
        } else if t.from == who {
            -(t.amount as int)
        } else {
            0
        },
        _ => 0,
    }
}

/// By how much `effects` change the balance of `token` that `who` has.
pub open spec fn net_gain(effects: Seq<EffectView>, token: Address, who: Address) -> int
    decreases effects.len(),
{
    if effects.len() == 0 {
        0
    } else {
        net_gain(effects.drop_last(), token, who) + gain(effects.last(), token, who)
    }
}

/// What the contract holds for an invoice, in units of `token`.
pub open spec fn held_for(s: State, token: Address, id: u64) -> int {
    if s.invoices.contains_key(id) && s.invoices[id].status == InvoiceStatus::Pending
        && s.invoices[id].token == token {
        s.invoices[id].funded
    } else {
        0
    }
}

/// What the contract holds for the first `n` invoices, in units of `token`.
pub open spec fn held_upto(s: State, token: Address, n: nat) -> int
    decreases n,
{
    if n == 0 {
        0
    } else {
        held_upto(s, token, (n - 1) as nat) + held_for(s, token, n as u64)
    }
}

/// What the contract holds for all pending invoices, in units of `token`.
pub open spec fn held(s: State, token: Address) -> int {
    held_upto(s, token, s.counter as nat)
}

/// The contract takes in nothing of `token` but a deposit from somebody else.
pub open spec fn outsiders_only(
    effects: Seq<EffectView>,
    token: Address,
    contract: Address,
) -> bool {
    forall|i: int|
        0 <= i < effects.len() ==> (#[trigger] effects[i] matches EffectView::Transfer(t)
            ==> t.token == token && t.to == contract ==> i == 0 && t.from != contract)
}

// ---------------------------------------------------------------------------
// Laws
// ---------------------------------------------------------------------------
/// The books balance: with every accepted request, what the contract's balance of a token gains
/// is what it holds more for pending invoices. So it can always pay out, and nothing is left
/// behind. Left out are requests by which the contract would pay itself, as a payer or as a
/// recipient.
pub proof fn law_escrow_balances(s: State, ctx: ContextView, request: Request, token: Address)
    requires
        s.wf(),
        accepted(s, ctx, request),
        outsiders_only(outcome(s, ctx, request).effects, token, ctx.contract),
    ensures
        held(after(s, ctx, request), token) - held(s, token) == net_gain(
            outcome(s, ctx, request).effects,
            token,
            ctx.contract,
        ),
{
    let contract = ctx.contract;
    match request {
        Request::CreateInvoice { creator, recipients, amounts, token: t, deadline } => {
            lemma_created_held(s, creator, recipients, amounts, t, deadline, token);
            lemma_net_one(outcome(s, ctx, request).effects, token, contract);
        },
        Request::CreateSubscription { creator, recipients, amounts, token: t, months } => {
            lemma_created_held(
                s,
                creator,
                recipients,
                amounts,
                t,
                month_ahead(ctx.timestamp),
                token,
            );
            lemma_held_same(
                created(s, creator, recipients, amounts, t, month_ahead(ctx.timestamp)).state,
                after(s, ctx, request),
                token,
                after(s, ctx, request).counter as nat,
            );
            lemma_net_one(outcome(s, ctx, request).effects, token, contract);
        },
        Request::CreateFromTemplate { creator, name, deadline } => {
            let t = s.templates[(creator, name)];
            lemma_created_held(s, creator, t.recipients, t.amounts, t.token, deadline, token);
            lemma_net_one(outcome(s, ctx, request).effects, token, contract);
        },
        Request::CloneInvoice { caller, source_id, new_deadline } => {
            let i = s.invoices[source_id];
            lemma_created_held(s, caller, i.recipients, i.amounts, i.token, new_deadline, token);
            lemma_net_one(outcome(s, ctx, request).effects, token, contract);
        },
        Request::SaveTemplate { creator, name, recipients, amounts, token: t } => {
            lemma_held_same(s, after(s, ctx, request), token, s.counter as nat);
        },
        Request::Pay { payer, id, amount, tip } => {
            lemma_pay_balances(s, ctx, payer, id, amount, tip, token);
        },
        Request::Release { id } => {
            let invoice = s.invoices[id];
            assert forall|i: int|
                token == invoice.token && 0 <= i
                    < invoice.recipients.len() implies invoice.recipients[i] != contract by {
                assert(outcome(s, ctx, request).effects[i] == payouts(contract, invoice)[i]);
            }
            lemma_payout_balances(s, ctx, id, contract, token);
        },
        Request::Refund { id } => {
            let invoice = s.invoices[id];
            let closed = InvoiceView { status: InvoiceStatus::Refunded, ..invoice };
            let line = entry(ctx, AuditAction::Refund, contract);
            lemma_touched_held(s, id, closed, line, token);
            let out = refunds(contract, invoice);
            let event = seq![EffectView::InvoiceRefunded { id }];
            assert(outcome(s, ctx, request).effects == out + event);
            assert forall|i: int| token == invoice.token && 0 <= i < out.len() implies (
            #[trigger] out[i])->Transfer_0.to != contract by {
                assert((out + event)[i] == out[i]);
            }
            law_contributions_add_up(invoice);
            lemma_net_outgoing(out, refund_amounts(invoice), invoice.token, contract, token);
            lemma_net_add(out, event, token, contract);
            lemma_net_one(event, token, contract);
        },
        Request::CancelInvoice { caller, id } => {
            let closed = InvoiceView { status: InvoiceStatus::Refunded, ..s.invoices[id] };
            lemma_touched_held(s, id, closed, entry(ctx, AuditAction::Cancel, caller), token);
        },
        Request::ExtendDeadline { caller, id, new_deadline } => {
            let moved_on = InvoiceView { deadline: new_deadline, ..s.invoices[id] };
            lemma_touched_held(s, id, moved_on, entry(ctx, AuditAction::Extend, caller), token);
        },
    }
}

/// By how much the accepted requests of a history change the balance of `token` that `who` has.
pub open spec fn net_gain_in(
    s: State,
    history: Seq<(ContextView, Request)>,
    token: Address,
    who: Address,
) -> int
    decreases history.len(),
{
    if history.len() == 0 {
        0
    } else {
        let before = run(s, history.drop_last());
        let (ctx, request) = history.last();
        net_gain_in(s, history.drop_last(), token, who) + if accepted(before, ctx, request) {
            net_gain(outcome(before, ctx, request).effects, token, who)
        } else {
            0
        }
    }
}

/// In a history of calls to `contract`, it takes in nothing of `token` but deposits from others.
pub open spec fn outsiders_only_in(
    s: State,
    history: Seq<(ContextView, Request)>,
    token: Address,
    contract: Address,
) -> bool
    decreases history.len(),
{
    history.len() > 0 ==> {
        let before = run(s, history.drop_last());
        let (ctx, request) = history.last();
        &&& outsiders_only_in(s, history.drop_last(), token, contract)
        &&& ctx.contract == contract
        &&& accepted(before, ctx, request) ==> outsiders_only(
            outcome(before, ctx, request).effects,
            token,
            contract,
        )
    }
}

/// Whatever is asked of a newly deployed contract, its balance of a token is exactly what it
/// holds for pending invoices, and never negative. Left out are histories in which the contract
/// pays itself.
pub proof fn law_escrow_is_always_covered(
    history: Seq<(ContextView, Request)>,
    token: Address,
    contract: Address,
)
    requires
        outsiders_only_in(State::initial(), history, token, contract),
    ensures
        net_gain_in(State::initial(), history, token, contract) == held(
            run(State::initial(), history),
            token,
        ),
        held(run(State::initial(), history), token) >= 0,
    decreases history.len(),
{
    law_every_history_is_sound(history);
    let s = run(State::initial(), history);
    lemma_held_not_negative(s, token, s.counter as nat);
    if history.len() > 0 {
        law_escrow_is_always_covered(history.drop_last(), token, contract);
        law_every_history_is_sound(history.drop_last());
        let before = run(State::initial(), history.drop_last());
        let (ctx, request) = history.last();
        if accepted(before, ctx, request) {
            law_escrow_balances(before, ctx, request, token);
        }
    }
}

/// What the recipient `who` is owed by an invoice in all.
pub open spec fn owed_to(recipients: Seq<Address>, amounts: Seq<i128>, who: Address) -> int
    decreases recipients.len(),
{
    if recipients.len() == 0 {
        0
    } else {
        owed_to(recipients.drop_last(), amounts.drop_last(), who) + if recipients.last() == who {
            amounts.last() as int
        } else {
            0
        }
    }
}

/// A payout sends each recipient exactly what they are owed, and nothing to anyone else; in all
/// it sends what was collected.
pub proof fn law_payout_is_exact(
    s: State,
    ctx: ContextView,
    id: u64,
    actor: Address,
    who: Address,
)
    requires
        s.wf(),
        s.invoices.contains_key(id),
        s.invoices[id].funded == s.invoices[id].total(),
    ensures
        sent(paid_out(s, ctx, id, actor).effects, s.invoices[id].token, ctx.contract, who)
            == owed_to(s.invoices[id].recipients, s.invoices[id].amounts, who),
        total(s.invoices[id].amounts) == paid(s.invoices[id].payments),
{
    let invoice = s.invoices[id];
    let out = payouts(ctx.contract, invoice);
    let rest = paid_out(s, ctx, id, actor).effects.skip(out.len() as int);
    assert(paid_out(s, ctx, id, actor).effects == out + rest);
    lemma_payouts_sent(ctx.contract, invoice, invoice.recipients.len() as int, who);
    assert(out.take(invoice.recipients.len() as int) == out);
    assert(invoice.recipients.take(invoice.recipients.len() as int) == invoice.recipients);
    assert(invoice.amounts.take(invoice.recipients.len() as int) == invoice.amounts);
    lemma_sent_add(out, rest, invoice.token, ctx.contract, who);
    lemma_sent_nothing(rest, invoice.token, ctx.contract, who);
}

/// A refund gives everyone back exactly what they paid toward the invoice, in one transfer each;
/// in all it sends what was collected.
pub proof fn law_refund_is_exact(s: State, ctx: ContextView, id: u64, who: Address)
    requires
        s.wf(),
        accepted(s, ctx, Request::Refund { id }),
    ensures
        sent(
            outcome(s, ctx, Request::Refund { id }).effects,
            s.invoices[id].token,
            ctx.contract,
            who,
        ) == paid_by(s.invoices[id].payments, who),
        ({
            let out = refunds(ctx.contract, s.invoices[id]);
            forall|i: int, j: int|
                0 <= i < j < out.len() ==> (#[trigger] out[i])->Transfer_0.to != (
                #[trigger] out[j])->Transfer_0.to
        }),
        total(refund_amounts(s.invoices[id])) == s.invoices[id].funded,
{
    let invoice = s.invoices[id];
    let out = refunds(ctx.contract, invoice);
    let event = seq![EffectView::InvoiceRefunded { id }];
    lemma_payers(invoice.payments);
    law_contributions_add_up(invoice);
    lemma_refunds_sent(ctx.contract, invoice, out.len() as int, who);
    assert(out.take(out.len() as int) == out);
    assert(payers(invoice.payments).take(out.len() as int) == payers(invoice.payments));
    if !payers(invoice.payments).contains(who) {
        lemma_paid_by_stranger(invoice.payments, who);
    }
    lemma_sent_add(out, event, invoice.token, ctx.contract, who);
    lemma_sent_nothing(event, invoice.token, ctx.contract, who);
}

/// A payment takes its amount from the payer to the contract. If it completes the invoice, the
/// contract sends each recipient exactly what they are owed in the same call; otherwise it sends
/// nothing. Left out is the contract as its own payer.
pub proof fn law_payment_routes_the_money(
    s: State,
    ctx: ContextView,
    payer: Address,
    id: u64,
    amount: i128,
    tip: i128,
    who: Address,
)
    requires
        s.wf(),
        accepted(s, ctx, Request::Pay { payer, id, amount, tip }),
        payer != ctx.contract,
    ensures
        ({
            let invoice = s.invoices[id];
            let effects = outcome(s, ctx, Request::Pay { payer, id, amount, tip }).effects;
            &&& effects[0] == EffectView::Transfer(
                Transfer { token: invoice.token, from: payer, to: ctx.contract, amount },
            )
            &&& sent(effects, invoice.token, ctx.contract, who) == if invoice.funded + amount
                == invoice.total() {
                owed_to(invoice.recipients, invoice.amounts, who)
            } else {
                0
            }
        }),
{
    let contract = ctx.contract;
    let request = Request::Pay { payer, id, amount, tip };
    let effects = outcome(s, ctx, request).effects;
    let invoice = s.invoices[id];
    let recorded = payment_recorded(s, ctx, payer, id, amount);
    let deposit = seq![
        EffectView::Transfer(Transfer { token: invoice.token, from: payer, to: contract, amount }),
    ];
    let taken = deposit + tips(invoice, payer, tip as int) + seq![
        EffectView::PaymentReceived { id, payer, amount: amount as int },
    ];
    assert(effects.take(taken.len() as int) == taken);
    assert forall|i: int| 0 <= i < taken.len() implies moved(
        #[trigger] taken[i],
        invoice.token,
        contract,
        who,
    ) == 0 by {
        if 1 <= i < taken.len() - 1 {
            assert(taken[i] == tips(invoice, payer, tip as int)[i - 1]);
        }
    }
    lemma_sent_nothing(taken, invoice.token, contract, who);
    if invoice.funded + amount == invoice.total() {
        let rest = paid_out(recorded, ctx, id, invoice.creator);
        assert(effects == taken + rest.effects);
        lemma_payment_taken_valid(s, ctx, payer, id, amount, tip);
        law_payout_is_exact(recorded, ctx, id, invoice.creator, who);
        lemma_sent_add(taken, rest.effects, invoice.token, contract, who);
    } else {
        assert(effects == taken);
    }
}

/// How many of the recipients are not `who`.
pub open spec fn others(recipients: Seq<Address>, who: Address) -> nat
    decreases recipients.len(),
{
    if recipients.len() == 0 {
        0
    } else {
        others(recipients.drop_last(), who) + if recipients.last() == who {
            0nat
        } else {
            1nat
        }
    }
}

/// A payment costs the payer its amount and one share of the tip for each recipient other than
/// themselves. All that they get back is what they are owed as a recipient, if the payment
/// completes the invoice. Left out is the contract as its own payer.
pub proof fn law_payer_is_charged(
    s: State,
    ctx: ContextView,
    payer: Address,
    id: u64,
    amount: i128,
    tip: i128,
)
    requires
        s.wf(),
        accepted(s, ctx, Request::Pay { payer, id, amount, tip }),
        payer != ctx.contract,
    ensures
        ({
            let invoice = s.invoices[id];
            let share = tip_share(tip as int, invoice.recipients.len());
            net_gain(
                outcome(s, ctx, Request::Pay { payer, id, amount, tip }).effects,
                invoice.token,
                payer,
            ) == -amount - share * others(invoice.recipients, payer) + if invoice.funded + amount
                == invoice.total() {
                owed_to(invoice.recipients, invoice.amounts, payer)
            } else {
                0
            }
        }),
{
    let contract = ctx.contract;
    let effects = outcome(s, ctx, Request::Pay { payer, id, amount, tip }).effects;
    let invoice = s.invoices[id];
    let token = invoice.token;
    let n = invoice.recipients.len() as int;
    let recorded = payment_recorded(s, ctx, payer, id, amount);
    let deposit = seq![
        EffectView::Transfer(Transfer { token, from: payer, to: contract, amount }),
    ];
    let given = tips(invoice, payer, tip as int);
    let event = seq![EffectView::PaymentReceived { id, payer, amount: amount as int }];
    let taken = deposit + given + event;
    lemma_tips_cost(invoice, payer, tip);
    lemma_net_one(deposit, token, payer);
    lemma_net_one(event, token, payer);
    lemma_net_add(deposit, given, token, payer);
    lemma_net_add(deposit + given, event, token, payer);
    if invoice.funded + amount == invoice.total() {
        let rest = paid_out(recorded, ctx, id, invoice.creator);
        assert(effects == taken + rest.effects);
        lemma_net_add(taken, rest.effects, token, payer);
        let out = payouts(contract, credited(invoice, payer, amount));
        let announced = rest.effects.skip(out.len() as int);
        assert(rest.effects == out + announced);
        lemma_net_add(out, announced, token, payer);
        assert(out == payouts(contract, invoice));
        lemma_payouts_gained(contract, invoice, n, payer);
        assert(out.take(n) == out);
        assert(invoice.recipients.take(n) == invoice.recipients);
        assert(invoice.amounts.take(n) == invoice.amounts);
        lemma_net_nothing(announced, token, payer);
    } else {
        assert(effects == taken);
    }
}

/// Somebody who made none of the payments has contributed nothing.
pub proof fn law_strangers_contributed_nothing(payments: Seq<Payment>, who: Address)
    requires
        forall|i: int| 0 <= i < payments.len() ==> (#[trigger] payments[i]).payer != who,
    ensures
        paid_by(payments, who) == 0,
{
    lemma_payers(payments);
    lemma_paid_by_stranger(payments, who);
}

/// The contributions of all payers add up to what the invoice holds.
pub proof fn law_contributions_add_up(invoice: InvoiceView)
    requires
        invoice.wf(),
    ensures
        total(refund_amounts(invoice)) == invoice.funded,
{
    let n = payers(invoice.payments).len() as int;
    lemma_refund_amounts_upto(invoice, n);
    assert(refund_amounts(invoice).take(n) == refund_amounts(invoice));
    assert(payers(invoice.payments).take(n) == payers(invoice.payments));
    lemma_contributed_all(invoice.payments);
}

/// A tip is split equally: each recipient is sent the same share, and what stays with the payer
/// is less than one unit for each recipient.
pub proof fn law_tip_is_split_equally(invoice: InvoiceView, payer: Address, tip: i128)
    requires
        invoice.wf(),
        tip >= 0,
    ensures
        ({
            let n = invoice.recipients.len();
            let share = tip_share(tip as int, n);
            let shares = tips(invoice, payer, tip as int);
            &&& 0 <= tip - share * n < n
            &&& share > 0 ==> shares.len() == n
            &&& share == 0 ==> shares.len() == 0
            &&& forall|i: int|
                0 <= i < shares.len() ==> #[trigger] shares[i] == EffectView::Transfer(
                    Transfer {
                        token: invoice.token,
                        from: payer,
                        to: invoice.recipients[i],
                        amount: share as i128,
                    },
                )
            &&& share as i128 == share
        }),
{
    let n = invoice.recipients.len() as int;
    let t = tip as int;
    assert(0 <= t - (t / n) * n < n && 0 <= t / n <= t) by (nonlinear_arith)
        requires
            n > 0,
            t >= 0,
    ;
}

// ---------------------------------------------------------------------------
// Sums of flows
// ---------------------------------------------------------------------------
proof fn lemma_net_add(a: Seq<EffectView>, b: Seq<EffectView>, token: Address, who: Address)
    ensures
        net_gain(a + b, token, who) == net_gain(a, token, who) + net_gain(b, token, who),
    decreases b.len(),
{
    if b.len() == 0 {
        assert(a + b == a);
    } else {
        assert((a + b).drop_last() == a + b.drop_last());
        lemma_net_add(a, b.drop_last(), token, who);
    }
}

proof fn lemma_net_one(a: Seq<EffectView>, token: Address, who: Address)
    requires
        a.len() == 1,
    ensures
        net_gain(a, token, who) == gain(a[0], token, who),
{
    assert(a.drop_last().len() == 0);
    assert(net_gain(a.drop_last(), token, who) == 0);
}

proof fn lemma_sent_add(
    a: Seq<EffectView>,
    b: Seq<EffectView>,
    token: Address,
    from: Address,
    to: Address,
)
    ensures
        sent(a + b, token, from, to) == sent(a, token, from, to) + sent(b, token, from, to),
    decreases b.len(),
{
    if b.len() == 0 {
        assert(a + b == a);
    } else {
        assert((a + b).drop_last() == a + b.drop_last());
        lemma_sent_add(a, b.drop_last(), token, from, to);
    }
}

proof fn lemma_sent_nothing(a: Seq<EffectView>, token: Address, from: Address, to: Address)
    requires
        forall|i: int| 0 <= i < a.len() ==> moved(#[trigger] a[i], token, from, to) == 0,
    ensures
        sent(a, token, from, to) == 0,
    decreases a.len(),
{
    if a.len() > 0 {
        assert(moved(a[a.len() - 1], token, from, to) == 0);
        assert forall|i: int| 0 <= i < a.drop_last().len() implies moved(
            #[trigger] a.drop_last()[i],
            token,
            from,
            to,
        ) == 0 by {
            assert(a.drop_last()[i] == a[i]);
        }
        lemma_sent_nothing(a.drop_last(), token, from, to);
    }
}

proof fn lemma_net_nothing(a: Seq<EffectView>, token: Address, who: Address)
    requires
        forall|i: int| 0 <= i < a.len() ==> gain(#[trigger] a[i], token, who) == 0,
    ensures
        net_gain(a, token, who) == 0,
    decreases a.len(),
{
    if a.len() > 0 {
        assert(gain(a[a.len() - 1], token, who) == 0);
        assert forall|i: int| 0 <= i < a.drop_last().len() implies gain(
            #[trigger] a.drop_last()[i],
            token,
            who,
        ) == 0 by {
            assert(a.drop_last()[i] == a[i]);
        }
        lemma_net_nothing(a.drop_last(), token, who);
    }
}

/// The first `n` shares of a tip cost the payer one share for each recipient who is not the payer.
proof fn lemma_tips_cost_upto(invoice: InvoiceView, payer: Address, tip: i128, n: int)
    requires
        0 <= n <= invoice.recipients.len(),
        0 < tip_share(tip as int, invoice.recipients.len()) <= i128::MAX,
    ensures
        net_gain(tips(invoice, payer, tip as int).take(n), invoice.token, payer) == -tip_share(
            tip as int,
            invoice.recipients.len(),
        ) * others(invoice.recipients.take(n), payer),
    decreases n,
{
    let share = tip_share(tip as int, invoice.recipients.len());
    let given = tips(invoice, payer, tip as int);
    if n > 0 {
        lemma_tips_cost_upto(invoice, payer, tip, n - 1);
        assert(given.take(n).drop_last() == given.take(n - 1));
        assert(given.take(n).last() == given[n - 1]);
        assert(invoice.recipients.take(n).drop_last() == invoice.recipients.take(n - 1));
        let k = others(invoice.recipients.take(n - 1), payer) as int;
        assert(-share * (k + 1) == -share * k - share) by (nonlinear_arith);
    } else {
        assert(others(invoice.recipients.take(0), payer) == 0);
        assert(-share * 0 == 0) by (nonlinear_arith);
    }
}

/// A tip costs the payer one share for each recipient who is not the payer.
proof fn lemma_tips_cost(invoice: InvoiceView, payer: Address, tip: i128)
    requires
        invoice.wf(),
        tip >= 0,
    ensures
        net_gain(tips(invoice, payer, tip as int), invoice.token, payer) == -(tip_share(
            tip as int,
            invoice.recipients.len(),
        ) * others(invoice.recipients, payer)),
{
    let n = invoice.recipients.len() as int;
    let share = tip_share(tip as int, invoice.recipients.len());
    let given = tips(invoice, payer, tip as int);
    law_tip_is_split_equally(invoice, payer, tip);
    let k = others(invoice.recipients, payer) as int;
    if share > 0 {
        lemma_tips_cost_upto(invoice, payer, tip, n);
        assert(given.take(n) == given);
        assert(invoice.recipients.take(n) == invoice.recipients);
        assert(-share * k == -(share * k)) by (nonlinear_arith);
    } else {
        assert(share == 0) by (nonlinear_arith)
            requires
                share == (tip as int) / n,
                tip >= 0,
                n > 0,
                share <= 0,
        ;
        assert(share * k == 0) by (nonlinear_arith)
            requires
                share == 0,
        ;
    }
}

/// The first `n` transfers of a payout bring a recipient what they are owed by them.
proof fn lemma_payouts_gained(contract: Address, invoice: InvoiceView, n: int, who: Address)
    requires
        invoice.wf(),
        0 <= n <= invoice.recipients.len(),
        who != contract,
    ensures
        net_gain(payouts(contract, invoice).take(n), invoice.token, who) == owed_to(
            invoice.recipients.take(n),
            invoice.amounts.take(n),
            who,
        ),
    decreases n,
{
    if n > 0 {
        let out = payouts(contract, invoice);
        lemma_payouts_gained(contract, invoice, n - 1, who);
        assert(out.take(n).drop_last() == out.take(n - 1));
        assert(invoice.recipients.take(n).drop_last() == invoice.recipients.take(n - 1));
        assert(invoice.amounts.take(n).drop_last() == invoice.amounts.take(n - 1));
        assert(out.take(n).last() == out[n - 1]);
    }
}

/// Transfers of `amounts` by the contract to others cost it their sum.
proof fn lemma_net_outgoing(
    out: Seq<EffectView>,
    amounts: Seq<i128>,
    token: Address,
    contract: Address,
    asked: Address,
)
    requires
        out.len() == amounts.len(),
        forall|i: int|
            0 <= i < out.len() ==> {
                &&& #[trigger] out[i] is Transfer
                &&& out[i]->Transfer_0.token == token
                &&& out[i]->Transfer_0.from == contract
                &&& asked == token ==> out[i]->Transfer_0.to != contract
                &&& out[i]->Transfer_0.amount == amounts[i]
            },
    ensures
        net_gain(out, asked, contract) == if asked == token {
            -total(amounts)
        } else {
            0
        },
    decreases out.len(),
{
    if out.len() > 0 {
        let last = out[out.len() - 1];
        assert(last is Transfer);
        assert forall|i: int| 0 <= i < out.drop_last().len() implies {
            &&& #[trigger] out.drop_last()[i] is Transfer
            &&& out.drop_last()[i]->Transfer_0.token == token
            &&& out.drop_last()[i]->Transfer_0.from == contract
            &&& asked == token ==> out.drop_last()[i]->Transfer_0.to != contract
            &&& out.drop_last()[i]->Transfer_0.amount == amounts.drop_last()[i]
        } by {
            assert(out.drop_last()[i] == out[i]);
        }
        lemma_net_outgoing(out.drop_last(), amounts.drop_last(), token, contract, asked);
    }
}

proof fn lemma_payouts_sent(contract: Address, invoice: InvoiceView, n: int, who: Address)
    requires
        invoice.wf(),
        0 <= n <= invoice.recipients.len(),
    ensures
        sent(payouts(contract, invoice).take(n), invoice.token, contract, who) == owed_to(
            invoice.recipients.take(n),
            invoice.amounts.take(n),
            who,
        ),
    decreases n,
{
    if n > 0 {
        let out = payouts(contract, invoice);
        lemma_payouts_sent(contract, invoice, n - 1, who);
        assert(out.take(n).drop_last() == out.take(n - 1));
        assert(invoice.recipients.take(n).drop_last() == invoice.recipients.take(n - 1));
        assert(invoice.amounts.take(n).drop_last() == invoice.amounts.take(n - 1));
        assert(out.take(n).last() == out[n - 1]);
    }
}

proof fn lemma_refunds_sent(contract: Address, invoice: InvoiceView, n: int, who: Address)
    requires
        invoice.wf(),
        0 <= n <= payers(invoice.payments).len(),
    ensures
        sent(refunds(contract, invoice).take(n), invoice.token, contract, who) == if payers(
            invoice.payments,
        ).take(n).contains(who) {
            paid_by(invoice.payments, who)
        } else {
            0
        },
    decreases n,
{
    if n > 0 {
        let out = refunds(contract, invoice);
        let list = payers(invoice.payments);
        lemma_payers(invoice.payments);
        lemma_refunds_sent(contract, invoice, n - 1, who);
        assert(out.take(n).drop_last() == out.take(n - 1));
        assert(out.take(n).last() == out[n - 1]);
        lemma_paid_by_prefix(invoice.payments, list[n - 1], 0);
        let shorter = list.take(n - 1);
        let longer = list.take(n);
        if list[n - 1] == who {
            assert(longer[n - 1] == who);
            if shorter.contains(who) {
                let j = choose|j: int| 0 <= j < shorter.len() && shorter[j] == who;
                assert(list[j] == list[n - 1]);
            }
        } else {
            if longer.contains(who) {
                let j = choose|j: int| 0 <= j < longer.len() && longer[j] == who;
                assert(shorter[j] == who);
            }
            if shorter.contains(who) {
                let j = choose|j: int| 0 <= j < shorter.len() && shorter[j] == who;
                assert(longer[j] == who);
            }
        }
    }
}

/// What each payer gets back, in the order of the payers.
pub open spec fn refund_amounts(invoice: InvoiceView) -> Seq<i128> {
    let who = payers(invoice.payments);
    Seq::new(who.len(), |i: int| paid_by(invoice.payments, who[i]) as i128)
}

/// What the people in `who` have paid in all.
spec fn contributed(payments: Seq<Payment>, who: Seq<Address>) -> int
    decreases who.len(),
{
    if who.len() == 0 {
        0
    } else {
        contributed(payments, who.drop_last()) + paid_by(payments, who.last())
    }
}

/// One more payment adds to what a group has paid if its payer is in the group.
proof fn lemma_contributed_push(payments: Seq<Payment>, payment: Payment, who: Seq<Address>)
    requires
        who.no_duplicates(),
    ensures
        contributed(payments.push(payment), who) == contributed(payments, who) + if who.contains(
            payment.payer,
        ) {
            payment.amount as int
        } else {
            0
        },
    decreases who.len(),
{
    if who.len() > 0 {
        let rest = who.drop_last();
        lemma_contributed_push(payments, payment, rest);
        lemma_paid_push(payments, payment);
        assert(paid_by(payments.push(payment), who.last()) == paid_by(payments, who.last()) + if
        who.last() == payment.payer {
            payment.amount as int
        } else {
            0
        });
        if who.last() == payment.payer {
            if rest.contains(payment.payer) {
                let j = choose|j: int| 0 <= j < rest.len() && rest[j] == payment.payer;
                assert(who[j] == who[who.len() - 1]);
            }
            assert(who[who.len() - 1] == payment.payer);
        } else {
            if who.contains(payment.payer) {
                let j = choose|j: int| 0 <= j < who.len() && who[j] == payment.payer;
                assert(rest[j] == payment.payer);
            }
            if rest.contains(payment.payer) {
                let j = choose|j: int| 0 <= j < rest.len() && rest[j] == payment.payer;
                assert(who[j] == payment.payer);
            }
        }
    }
}

/// All payers together have paid everything.
proof fn lemma_contributed_all(payments: Seq<Payment>)
    ensures
        contributed(payments, payers(payments)) == paid(payments),
    decreases payments.len(),
{
    if payments.len() > 0 {
        let rest = payments.drop_last();
        let last = payments.last();
        assert(rest.push(last) == payments);
        lemma_contributed_all(rest);
        lemma_payers(rest);
        lemma_payers(payments);
        lemma_contributed_push(rest, last, payers(rest));
        if !payers(rest).contains(last.payer) {
            assert(payers(payments).drop_last() == payers(rest));
            lemma_paid_by_stranger(rest, last.payer);
            lemma_paid_push(rest, last);
            assert(paid_by(rest.push(last), last.payer) == last.amount);
        }
    }
}

proof fn lemma_refund_amounts_upto(invoice: InvoiceView, n: int)
    requires
        invoice.wf(),
        0 <= n <= payers(invoice.payments).len(),
    ensures
        total(refund_amounts(invoice).take(n)) == contributed(
            invoice.payments,
            payers(invoice.payments).take(n),
        ),
    decreases n,
{
    if n > 0 {
        let list = payers(invoice.payments);
        lemma_refund_amounts_upto(invoice, n - 1);
        assert(refund_amounts(invoice).take(n).drop_last() == refund_amounts(invoice).take(n - 1));
        assert(list.take(n).drop_last() == list.take(n - 1));
        lemma_paid_by_prefix(invoice.payments, list[n - 1], 0);
    }
}

// ---------------------------------------------------------------------------
// What is held
// ---------------------------------------------------------------------------
proof fn lemma_held_same(s: State, t: State, token: Address, n: nat)
    requires
        n <= u64::MAX,
        forall|id: u64|
            1 <= id <= n ==> #[trigger] s.invoices.contains_key(id) == t.invoices.contains_key(id)
                && s.invoices[id] == t.invoices[id],
    ensures
        held_upto(s, token, n) == held_upto(t, token, n),
    decreases n,
{
    if n > 0 {
        lemma_held_same(s, t, token, (n - 1) as nat);
        assert(s.invoices.contains_key(n as u64) == t.invoices.contains_key(n as u64));
    }
}

proof fn lemma_held_not_negative(s: State, token: Address, n: nat)
    requires
        s.wf(),
        n <= u64::MAX,
    ensures
        held_upto(s, token, n) >= 0,
    decreases n,
{
    if n > 0 {
        lemma_held_not_negative(s, token, (n - 1) as nat);
        if s.invoices.contains_key(n as u64) {
            lemma_paid_prefix(s.invoices[n as u64].payments, 0);
        }
    }
}

proof fn lemma_held_replaced(s: State, id: u64, invoice: InvoiceView, token: Address, n: nat)
    requires
        n <= u64::MAX,
        id >= 1,
    ensures
        held_upto(s.holding(id, invoice), token, n) == held_upto(s, token, n) + if id <= n {
            held_for(s.holding(id, invoice), token, id) - held_for(s, token, id)
        } else {
            0
        },
    decreases n,
{
    if n > 0 {
        lemma_held_replaced(s, id, invoice, token, (n - 1) as nat);
        if id != n {
            assert(n as u64 != id);
            assert(held_for(s.holding(id, invoice), token, n as u64) == held_for(
                s,
                token,
                n as u64,
            ));
        }
    }
}

proof fn lemma_touched_held(
    s: State,
    id: u64,
    invoice: InvoiceView,
    line: AuditEntry,
    token: Address,
)
    requires
        s.wf(),
        s.invoices.contains_key(id),
    ensures
        held(s.holding(id, invoice).logging(id, line), token) == held(s, token) + held_for(
            s.holding(id, invoice),
            token,
            id,
        ) - held_for(s, token, id),
{
    lemma_held_replaced(s, id, invoice, token, s.counter as nat);
    lemma_held_same(
        s.holding(id, invoice),
        s.holding(id, invoice).logging(id, line),
        token,
        s.counter as nat,
    );
}

proof fn lemma_created_held(
    s: State,
    creator: Address,
    recipients: Seq<Address>,
    amounts: Seq<i128>,
    t: Address,
    deadline: u64,
    token: Address,
)
    requires
        s.wf(),
        s.counter < u64::MAX,
    ensures
        held(created(s, creator, recipients, amounts, t, deadline).state, token) == held(s, token),
{
    let next = created(s, creator, recipients, amounts, t, deadline).state;
    lemma_held_same(s, next, token, s.counter as nat);
}

/// A payout by the contract to others costs it what it held for the invoice.
proof fn lemma_payout_balances(
    s: State,
    ctx: ContextView,
    id: u64,
    actor: Address,
    token: Address,
)
    requires
        s.wf(),
        s.invoices.contains_key(id),
        s.invoices[id].status == InvoiceStatus::Pending,
        s.invoices[id].funded == s.invoices[id].total(),
        !successor_overflows(s, ctx.timestamp, id),
        forall|i: int|
            token == s.invoices[id].token && 0 <= i < s.invoices[id].recipients.len()
                ==> s.invoices[id].recipients[i] != ctx.contract,
    ensures
        held(paid_out(s, ctx, id, actor).state, token) - held(s, token) == net_gain(
            paid_out(s, ctx, id, actor).effects,
            token,
            ctx.contract,
        ),
{
    let contract = ctx.contract;
    let invoice = s.invoices[id];
    let line = entry(ctx, AuditAction::Release, actor);
    let closed_invoice = InvoiceView { status: InvoiceStatus::Released, ..invoice };
    let closed = s.holding(id, closed_invoice).logging(id, line);
    lemma_touched_held(s, id, closed_invoice, line, token);
    let out = payouts(contract, invoice);
    let event = seq![EffectView::InvoiceReleased { id, recipients: invoice.recipients }];
    lemma_net_outgoing(out, invoice.amounts, invoice.token, contract, token);
    lemma_net_add(out, event, token, contract);
    lemma_net_one(event, token, contract);
    if s.subscriptions.contains_key(id) {
        let params = s.subscriptions[id];
        let deadline = month_ahead(ctx.timestamp);
        assert(closed.wf()) by {
            lemma_paid_out_valid(s, ctx, id, actor);
        }
        lemma_created_held(
            closed,
            params.creator,
            params.recipients,
            params.amounts,
            params.token,
            deadline,
            token,
        );
        let next = created(
            closed,
            params.creator,
            params.recipients,
            params.amounts,
            params.token,
            deadline,
        );
        lemma_held_same(
            next.state,
            paid_out(s, ctx, id, actor).state,
            token,
            next.state.counter as nat,
        );
        lemma_net_add(out + event, next.effects, token, contract);
        lemma_net_one(next.effects, token, contract);
    }
}

/// A payment by somebody else brings the contract what it then holds for the invoice.
proof fn lemma_pay_balances(
    s: State,
    ctx: ContextView,
    payer: Address,
    id: u64,
    amount: i128,
    tip: i128,
    token: Address,
)
    requires
        s.wf(),
        accepted(s, ctx, Request::Pay { payer, id, amount, tip }),
        outsiders_only(
            outcome(s, ctx, Request::Pay { payer, id, amount, tip }).effects,
            token,
            ctx.contract,
        ),
    ensures
        held(after(s, ctx, Request::Pay { payer, id, amount, tip }), token) - held(s, token)
            == net_gain(
            outcome(s, ctx, Request::Pay { payer, id, amount, tip }).effects,
            token,
            ctx.contract,
        ),
{
    let contract = ctx.contract;
    let request = Request::Pay { payer, id, amount, tip };
    let effects = outcome(s, ctx, request).effects;
    let invoice = s.invoices[id];
    let line = entry(ctx, AuditAction::Pay, payer);
    let recorded = payment_recorded(s, ctx, payer, id, amount);
    let deposit = seq![
        EffectView::Transfer(Transfer { token: invoice.token, from: payer, to: contract, amount }),
    ];
    let given = tips(invoice, payer, tip as int);
    let event = seq![EffectView::PaymentReceived { id, payer, amount: amount as int }];
    let taken = deposit + given + event;
    assert(effects.take(taken.len() as int) == taken);
    assert(effects[0] == deposit[0]);
    assert(token == invoice.token ==> payer != contract);
    assert forall|i: int| 0 <= i < given.len() implies gain(#[trigger] given[i], token, contract)
        == 0 by {
        assert(effects[i + 1] == given[i]);
    }
    lemma_touched_held(s, id, credited(invoice, payer, amount), line, token);
    lemma_net_nothing(given, token, contract);
    lemma_net_one(deposit, token, contract);
    lemma_net_one(event, token, contract);
    lemma_net_add(deposit, given, token, contract);
    lemma_net_add(deposit + given, event, token, contract);
    if invoice.funded + amount == invoice.total() {
        let rest = paid_out(recorded, ctx, id, invoice.creator);
        assert(effects == taken + rest.effects);
        lemma_payment_taken_valid(s, ctx, payer, id, amount, tip);
        assert forall|i: int|
            token == invoice.token && 0 <= i
                < invoice.recipients.len() implies invoice.recipients[i] != contract by {
            assert(effects[taken.len() + i] == payouts(
                contract,
                credited(invoice, payer, amount),
            )[i]);
        }
        lemma_payout_balances(recorded, ctx, id, invoice.creator, token);
        lemma_net_add(taken, rest.effects, token, contract);
    }
}

} // verus!
