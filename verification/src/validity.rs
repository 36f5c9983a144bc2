//! Accepted requests keep every record valid.
use vstd::prelude::*;

use crate::context::ContextView;
use crate::model::{
    created, credited, entry, month_ahead, paid_out, pay_refusal, payment_recorded, payment_taken,
    shares_valid, subscribed, successor_overflows, State, MAX_MONTHS,
};
use crate::money::{lemma_paid_push, lemma_total_prefix, total};
use crate::types::{Address, AuditAction, AuditEntry, InvoiceStatus, InvoiceView};

verus! {

/// Creating an invoice with valid terms keeps the records valid.
pub proof fn lemma_created_valid(
    s: State,
    creator: Address,
    recipients: Seq<Address>,
    amounts: Seq<i128>,
    token: Address,
    deadline: u64,
)
    requires
        s.wf(),
        s.counter < u64::MAX,
        shares_valid(recipients, amounts),
        total(amounts) <= i128::MAX,
    ensures
        created(s, creator, recipients, amounts, token, deadline).state.wf(),
{
    lemma_total_prefix(amounts, amounts.len() as int);
}

/// Replacing an invoice by a valid one, and logging that, keeps the records valid.
pub proof fn lemma_touched_valid(s: State, id: u64, invoice: InvoiceView, line: AuditEntry)
    requires
        s.wf(),
        s.invoices.contains_key(id),
        invoice.wf(),
    ensures
        s.holding(id, invoice).logging(id, line).wf(),
{
}

/// Starting a subscription with valid terms keeps the records valid.
pub proof fn lemma_subscribed_valid(
    s: State,
    ctx: ContextView,
    creator: Address,
    recipients: Seq<Address>,
    amounts: Seq<i128>,
    token: Address,
    months: u32,
)
    requires
        s.wf(),
        s.counter < u64::MAX,
        shares_valid(recipients, amounts),
        total(amounts) <= i128::MAX,
        1 <= months <= MAX_MONTHS,
    ensures
        subscribed(s, ctx, creator, recipients, amounts, token, months).state.wf(),
{
    lemma_created_valid(s, creator, recipients, amounts, token, month_ahead(ctx.timestamp));
}

/// Paying out an invoice that is fully funded keeps the records valid, also before the next one
/// of its subscription is created.
pub proof fn lemma_paid_out_valid(s: State, ctx: ContextView, id: u64, actor: Address)
    requires
        s.wf(),
        s.invoices.contains_key(id),
        s.invoices[id].funded == s.invoices[id].total(),
        !successor_overflows(s, ctx.timestamp, id),
    ensures
        s.holding(
            id,
            InvoiceView { status: InvoiceStatus::Released, ..s.invoices[id] },
        ).logging(id, entry(ctx, AuditAction::Release, actor)).wf(),
        paid_out(s, ctx, id, actor).state.wf(),
{
    let closed = s.holding(
        id,
        InvoiceView { status: InvoiceStatus::Released, ..s.invoices[id] },
    ).logging(id, entry(ctx, AuditAction::Release, actor));
    assert(closed.wf());
    if s.subscriptions.contains_key(id) {
        let params = s.subscriptions[id];
        lemma_created_valid(
            closed,
            params.creator,
            params.recipients,
            params.amounts,
            params.token,
            month_ahead(ctx.timestamp),
        );
    }
}

/// An accepted payment keeps the records valid, also before a payout that it triggers.
pub proof fn lemma_payment_taken_valid(
    s: State,
    ctx: ContextView,
    payer: Address,
    id: u64,
    amount: i128,
    tip: i128,
)
    requires
        s.wf(),
        pay_refusal(s, ctx, payer, id, amount, tip) is None,
    ensures
        payment_recorded(s, ctx, payer, id, amount).wf(),
        payment_taken(s, ctx, payer, id, amount, tip).state.wf(),
{
    let invoice = s.invoices[id];
    let recorded = payment_recorded(s, ctx, payer, id, amount);
    lemma_paid_push(invoice.payments, credited(invoice, payer, amount).payments.last());
    assert(credited(invoice, payer, amount).wf());
    assert(recorded.wf());
    if invoice.funded + amount == invoice.total() {
        lemma_paid_out_valid(recorded, ctx, id, invoice.creator);
    }
}

} // verus!
