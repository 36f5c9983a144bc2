//! What each call promises: on which inputs it is accepted, why it is refused on the others, and
//! what it leaves behind, told by the records, the numbers and the transfers themselves.
use vstd::prelude::*;

use crate::completion::completion_refusal;
use crate::context::{ContextView, EffectView, Transfer};
use crate::error::SplitError;
use crate::model::{
    cancel_refusal, cancelled, clone_invoice_refusal, cloned_invoice, create_from_template_refusal,
    create_invoice_refusal, create_subscription_refusal, created, created_from_template,
    extend_refusal, extended, pay_refusal, payment_taken, refund_refusal, refunded, release_refusal,
    released, save_template_refusal, subscribed, template_saved, State,
};
use crate::money::{lemma_paid_by_prefix, paid_by, payers, total};
use crate::requests::{accepted, after, outcome, refusal, Request};
use crate::types::{Address, AuditAction, AuditEntry, InvoiceStatus, Payment, TemplateView};

verus! {

// ---------------------------------------------------------------------------
// Creating
// ---------------------------------------------------------------------------
/// An invoice is created whenever its creator has authorized the call, every recipient has one
/// positive amount, there is a recipient, the deadline is in the future, and the sum and the next
/// identifier are in range. Each other input is refused for the first of these that fails.
pub proof fn law_when_invoices_are_created(
    s: State,
    ctx: ContextView,
    creator: Address,
    recipients: Seq<Address>,
    amounts: Seq<i128>,
    deadline: u64,
)
    ensures
        ({
            let answer = create_invoice_refusal(s, ctx, creator, recipients, amounts, deadline);
            let authorized = ctx.authorized.contains(creator);
            let matched = recipients.len() == amounts.len();
            let someone = recipients.len() > 0;
            let future = deadline > ctx.timestamp;
            let positive = forall|i: int| 0 <= i < amounts.len() ==> amounts[i] > 0;
            let in_range = s.counter < u64::MAX && total(amounts) <= i128::MAX;
            &&& answer is None <==> authorized && matched && someone && future && positive
                && in_range
            &&& answer == Some(SplitError::NotAuthorized) <==> !authorized
            &&& answer == Some(SplitError::LengthMismatch) <==> authorized && !matched
            &&& answer == Some(SplitError::NoRecipients) <==> authorized && matched && !someone
            &&& answer == Some(SplitError::DeadlineNotInFuture) <==> authorized && matched
                && someone && !future
            &&& answer == Some(SplitError::AmountNotPositive) <==> authorized && matched && someone
                && future && !positive
            &&& answer == Some(SplitError::Overflow) <==> authorized && matched && someone && future
                && positive && !in_range
        }),
{
}

/// A new invoice has the next number and the terms asked for, is pending with nothing paid, and is
/// announced with its sum. Nothing else changes.
pub proof fn law_what_a_new_invoice_is(
    s: State,
    creator: Address,
    recipients: Seq<Address>,
    amounts: Seq<i128>,
    token: Address,
    deadline: u64,
    id: u64,
)
    requires
        s.counter < u64::MAX,
        id == s.counter + 1,
    ensures
        ({
            let result = created(s, creator, recipients, amounts, token, deadline);
            let now = result.state;
            let invoice = now.invoices[id];
            &&& now.counter == id
            &&& now.invoices.contains_key(id)
            &&& now.invoices.remove(id) == s.invoices.remove(id)
            &&& now.logs == s.logs
            &&& now.subscriptions == s.subscriptions
            &&& now.templates == s.templates
            &&& invoice.creator == creator
            &&& invoice.recipients == recipients
            &&& invoice.amounts == amounts
            &&& invoice.token == token
            &&& invoice.deadline == deadline
            &&& invoice.funded == 0
            &&& invoice.status == InvoiceStatus::Pending
            &&& invoice.payments.len() == 0
            &&& result.effects.len() == 1
            &&& result.effects[0] == (EffectView::InvoiceCreated {
                id,
                creator,
                total: total(amounts),
            })
        }),
{
    let now = created(s, creator, recipients, amounts, token, deadline).state;
    assert(now.invoices.remove(id) =~= s.invoices.remove(id));
}

/// A subscription starts whenever its creator has authorized the call, every recipient has one
/// positive amount, there is a recipient, the months are between one and twelve, and the sum, the
/// next identifier and the deadline thirty days ahead are in range. Each other input is refused
/// for the first of these that fails.
pub proof fn law_when_subscriptions_start(
    s: State,
    ctx: ContextView,
    creator: Address,
    recipients: Seq<Address>,
    amounts: Seq<i128>,
    months: u32,
)
    ensures
        ({
            let answer = create_subscription_refusal(s, ctx, creator, recipients, amounts, months);
            let authorized = ctx.authorized.contains(creator);
            let matched = recipients.len() == amounts.len();
            let someone = recipients.len() > 0;
            let a_year = 1 <= months <= 12;
            let positive = forall|i: int| 0 <= i < amounts.len() ==> amounts[i] > 0;
            let in_range = ctx.timestamp + 2_592_000 <= u64::MAX && s.counter < u64::MAX && total(
                amounts,
            ) <= i128::MAX;
            &&& answer is None <==> authorized && matched && someone && a_year && positive
                && in_range
            &&& answer == Some(SplitError::NotAuthorized) <==> !authorized
            &&& answer == Some(SplitError::LengthMismatch) <==> authorized && !matched
            &&& answer == Some(SplitError::NoRecipients) <==> authorized && matched && !someone
            &&& answer == Some(SplitError::MonthsOutOfRange) <==> authorized && matched && someone
                && !a_year
            &&& answer == Some(SplitError::AmountNotPositive) <==> authorized && matched && someone
                && a_year && !positive
            &&& answer == Some(SplitError::Overflow) <==> authorized && matched && someone && a_year
                && positive && !in_range
        }),
{
}

/// A subscription starts with an invoice on the terms asked for that is due 2,592,000 seconds
/// after the call. If it runs longer than a month, all the other months are scheduled after that
/// invoice, on the same terms. Nothing else changes.
pub proof fn law_what_a_subscription_starts_with(
    s: State,
    ctx: ContextView,
    creator: Address,
    recipients: Seq<Address>,
    amounts: Seq<i128>,
    token: Address,
    months: u32,
    id: u64,
)
    requires
        s.wf(),
        create_subscription_refusal(s, ctx, creator, recipients, amounts, months) is None,
        id == s.counter + 1,
    ensures
        ({
            let result = subscribed(s, ctx, creator, recipients, amounts, token, months);
            let now = result.state;
            let invoice = now.invoices[id];
            let params = now.subscriptions[id];
            &&& now.counter == id
            &&& now.invoices.contains_key(id)
            &&& now.invoices.remove(id) == s.invoices
            &&& now.logs == s.logs
            &&& now.templates == s.templates
            &&& invoice.creator == creator
            &&& invoice.recipients == recipients
            &&& invoice.amounts == amounts
            &&& invoice.token == token
            &&& invoice.deadline == ctx.timestamp + 2_592_000
            &&& invoice.funded == 0
            &&& invoice.status == InvoiceStatus::Pending
            &&& invoice.payments.len() == 0
            &&& now.subscriptions.remove(id) == s.subscriptions
            &&& now.subscriptions.contains_key(id) <==> months > 1
            &&& months > 1 ==> {
                &&& params.creator == creator
                &&& params.recipients == recipients
                &&& params.amounts == amounts
                &&& params.token == token
                &&& params.remaining == months - 1
            }
            &&& result.effects.len() == 1
            &&& result.effects[0] == (EffectView::InvoiceCreated {
                id,
                creator,
                total: total(amounts),
            })
        }),
{
    let now = subscribed(s, ctx, creator, recipients, amounts, token, months).state;
    assert(!s.known(id));
    assert(!s.invoices.contains_key(id));
    assert(!s.subscriptions.contains_key(id));
    assert(now.invoices.remove(id) =~= s.invoices);
    assert(now.subscriptions.remove(id) =~= s.subscriptions);
}

/// A template is saved whenever its creator has authorized the call, every recipient has one
/// positive amount, and there is a recipient. Each other input is refused for the first of these
/// that fails.
pub proof fn law_when_templates_are_saved(
    ctx: ContextView,
    creator: Address,
    recipients: Seq<Address>,
    amounts: Seq<i128>,
)
    ensures
        ({
            let answer = save_template_refusal(ctx, creator, recipients, amounts);
            let authorized = ctx.authorized.contains(creator);
            let matched = recipients.len() == amounts.len();
            let someone = recipients.len() > 0;
            let positive = forall|i: int| 0 <= i < amounts.len() ==> amounts[i] > 0;
            &&& answer is None <==> authorized && matched && someone && positive
            &&& answer == Some(SplitError::NotAuthorized) <==> !authorized
            &&& answer == Some(SplitError::LengthMismatch) <==> authorized && !matched
            &&& answer == Some(SplitError::NoRecipients) <==> authorized && matched && !someone
            &&& answer == Some(SplitError::AmountNotPositive) <==> authorized && matched && someone
                && !positive
        }),
{
}

/// A saved template is found under its creator and name, and nothing else changes.
pub proof fn law_what_saving_a_template_does(
    s: State,
    creator: Address,
    name: Seq<char>,
    template: TemplateView,
)
    ensures
        ({
            let result = template_saved(s, creator, name, template);
            let now = result.state;
            &&& now.templates.contains_key((creator, name))
            &&& now.templates[(creator, name)] == template
            &&& now.templates.remove((creator, name)) == s.templates.remove((creator, name))
            &&& now.counter == s.counter
            &&& now.invoices == s.invoices
            &&& now.logs == s.logs
            &&& now.subscriptions == s.subscriptions
            &&& result.effects.len() == 0
        }),
{
    let now = template_saved(s, creator, name, template).state;
    assert(now.templates.remove((creator, name)) =~= s.templates.remove((creator, name)));
}

/// An invoice is made from a template whenever the creator has authorized the call and saved one
/// under the name, and the invoice could be created from its terms. It is then exactly that
/// invoice.
pub proof fn law_invoices_from_templates(
    s: State,
    ctx: ContextView,
    creator: Address,
    name: Seq<char>,
    deadline: u64,
)
    ensures
        ({
            let answer = create_from_template_refusal(s, ctx, creator, name, deadline);
            let authorized = ctx.authorized.contains(creator);
            let found = s.templates.contains_key((creator, name));
            let template = s.templates[(creator, name)];
            &&& answer == Some(SplitError::NotAuthorized) <==> !authorized
            &&& answer == Some(SplitError::TemplateNotFound) <==> authorized && !found
            &&& authorized && found ==> answer == create_invoice_refusal(
                s,
                ctx,
                creator,
                template.recipients,
                template.amounts,
                deadline,
            )
            &&& created_from_template(s, creator, name, deadline) == created(
                s,
                creator,
                template.recipients,
                template.amounts,
                template.token,
                deadline,
            )
        }),
{
}

/// Anyone who has authorized the call can clone an invoice that exists, whenever they could create
/// one on its terms. The clone is then exactly that invoice.
pub proof fn law_clones(
    s: State,
    ctx: ContextView,
    caller: Address,
    source_id: u64,
    new_deadline: u64,
)
    ensures
        ({
            let answer = clone_invoice_refusal(s, ctx, caller, source_id, new_deadline);
            let authorized = ctx.authorized.contains(caller);
            let found = s.invoices.contains_key(source_id);
            let source = s.invoices[source_id];
            &&& answer == Some(SplitError::NotAuthorized) <==> !authorized
            &&& answer == Some(SplitError::InvoiceNotFound) <==> authorized && !found
            &&& authorized && found ==> answer == create_invoice_refusal(
                s,
                ctx,
                caller,
                source.recipients,
                source.amounts,
                new_deadline,
            )
            &&& cloned_invoice(s, caller, source_id, new_deadline) == created(
                s,
                caller,
                source.recipients,
                source.amounts,
                source.token,
                new_deadline,
            )
        }),
{
}

// ---------------------------------------------------------------------------
// Paying
// ---------------------------------------------------------------------------
/// A payment is taken whenever its payer has authorized the call, the invoice is pending and not
/// past its deadline, the amount is positive and no more than what is missing, and the tip is not
/// negative, however many payments came before. Only a payment that completes an invoice needs
/// room for the next invoice of its subscription. Each other input is refused for the first of
/// these that fails.
pub proof fn law_when_payments_are_taken(
    s: State,
    ctx: ContextView,
    payer: Address,
    id: u64,
    amount: i128,
    tip: i128,
)
    ensures
        ({
            let answer = pay_refusal(s, ctx, payer, id, amount, tip);
            let invoice = s.invoices[id];
            let missing = total(invoice.amounts) - invoice.funded;
            let authorized = ctx.authorized.contains(payer);
            let found = s.invoices.contains_key(id);
            let open = invoice.status == InvoiceStatus::Pending;
            let in_time = ctx.timestamp <= invoice.deadline;
            let room = amount < missing || !s.subscriptions.contains_key(id) || (ctx.timestamp
                + 2_592_000 <= u64::MAX && s.counter < u64::MAX);
            let known = authorized && found && open && in_time;
            &&& answer is None <==> known && 0 < amount <= missing && tip >= 0 && room
            &&& answer == Some(SplitError::NotAuthorized) <==> !authorized
            &&& answer == Some(SplitError::InvoiceNotFound) <==> authorized && !found
            &&& answer == Some(SplitError::NotPending) <==> authorized && found && !open
            &&& answer == Some(SplitError::DeadlinePassed) <==> authorized && found && open
                && !in_time
            &&& answer == Some(SplitError::PaymentNotPositive) <==> known && amount <= 0
            &&& answer == Some(SplitError::NegativeTip) <==> known && amount > 0 && tip < 0
            &&& answer == Some(SplitError::ExceedsRemaining) <==> known && amount > 0 && tip >= 0
                && amount > missing
            &&& answer == Some(SplitError::Overflow) <==> known && 0 < amount <= missing && tip >= 0
                && !room
        }),
{
}

/// A payment that does not complete the invoice is added to what is funded and to the end of the
/// payments, and logged in the payer's name. The invoice stays pending on its terms, and nothing
/// else changes.
pub proof fn law_what_a_partial_payment_does(
    s: State,
    ctx: ContextView,
    payer: Address,
    id: u64,
    amount: i128,
    tip: i128,
)
    requires
        pay_refusal(s, ctx, payer, id, amount, tip) is None,
        amount < total(s.invoices[id].amounts) - s.invoices[id].funded,
    ensures
        ({
            let now = payment_taken(s, ctx, payer, id, amount, tip).state;
            let before = s.invoices[id];
            let invoice = now.invoices[id];
            let lines = if s.logs.contains_key(id) {
                s.logs[id]
            } else {
                Seq::empty()
            };
            &&& now.counter == s.counter
            &&& now.invoices.contains_key(id)
            &&& now.invoices.remove(id) == s.invoices.remove(id)
            &&& now.subscriptions == s.subscriptions
            &&& now.templates == s.templates
            &&& invoice.creator == before.creator
            &&& invoice.recipients == before.recipients
            &&& invoice.amounts == before.amounts
            &&& invoice.token == before.token
            &&& invoice.deadline == before.deadline
            &&& invoice.funded == before.funded + amount
            &&& invoice.status == InvoiceStatus::Pending
            &&& invoice.payments == before.payments.push(Payment { payer, amount })
            &&& now.logs.contains_key(id)
            &&& now.logs[id] == lines.push(
                AuditEntry { action: AuditAction::Pay, actor: payer, timestamp: ctx.timestamp },
            )
            &&& now.logs.remove(id) == s.logs.remove(id)
        }),
{
    let now = payment_taken(s, ctx, payer, id, amount, tip).state;
    assert(now.invoices.remove(id) =~= s.invoices.remove(id));
    assert(now.logs.remove(id) =~= s.logs.remove(id));
}

/// A payment that completes the invoice is recorded like any other, and releases the invoice in
/// the same call, logged in the creator's name. If months are to come after it, the next invoice
/// gets the next number and the subscription's terms, is due 2,592,000 seconds after the call, and
/// has one month fewer to come. Nothing else changes.
pub proof fn law_what_a_completing_payment_does(
    s: State,
    ctx: ContextView,
    payer: Address,
    id: u64,
    amount: i128,
    tip: i128,
)
    requires
        s.wf(),
        pay_refusal(s, ctx, payer, id, amount, tip) is None,
        amount == total(s.invoices[id].amounts) - s.invoices[id].funded,
    ensures
        ({
            let now = payment_taken(s, ctx, payer, id, amount, tip).state;
            let before = s.invoices[id];
            let invoice = now.invoices[id];
            let lines = if s.logs.contains_key(id) {
                s.logs[id]
            } else {
                Seq::empty()
            };
            let params = s.subscriptions[id];
            let follows = s.subscriptions.contains_key(id);
            let next_id = (s.counter + 1) as u64;
            let next = now.invoices[next_id];
            let rest = now.subscriptions[next_id];
            &&& now.invoices.contains_key(id)
            &&& invoice.creator == before.creator
            &&& invoice.recipients == before.recipients
            &&& invoice.amounts == before.amounts
            &&& invoice.token == before.token
            &&& invoice.deadline == before.deadline
            &&& invoice.funded == before.funded + amount
            &&& invoice.status == InvoiceStatus::Released
            &&& invoice.payments == before.payments.push(Payment { payer, amount })
            &&& now.templates == s.templates
            &&& now.logs.contains_key(id)
            &&& now.logs[id] == lines + seq![
                AuditEntry { action: AuditAction::Pay, actor: payer, timestamp: ctx.timestamp },
                AuditEntry {
                    action: AuditAction::Release,
                    actor: before.creator,
                    timestamp: ctx.timestamp,
                },
            ]
            &&& now.logs.remove(id) == s.logs.remove(id)
            &&& !follows ==> {
                &&& now.counter == s.counter
                &&& now.invoices.remove(id) == s.invoices.remove(id)
                &&& now.subscriptions == s.subscriptions
            }
            &&& follows ==> {
                &&& now.counter == s.counter + 1
                &&& now.invoices.contains_key(next_id)
                &&& now.invoices.remove(id).remove(next_id) == s.invoices.remove(id)
                &&& next.creator == params.creator
                &&& next.recipients == params.recipients
                &&& next.amounts == params.amounts
                &&& next.token == params.token
                &&& next.deadline == ctx.timestamp + 2_592_000
                &&& next.funded == 0
                &&& next.status == InvoiceStatus::Pending
                &&& next.payments.len() == 0
                &&& !now.subscriptions.contains_key(id)
                &&& now.subscriptions.remove(next_id) == s.subscriptions.remove(id)
                &&& now.subscriptions.contains_key(next_id) <==> params.remaining > 1
                &&& params.remaining > 1 ==> {
                    &&& rest.creator == params.creator
                    &&& rest.recipients == params.recipients
                    &&& rest.amounts == params.amounts
                    &&& rest.token == params.token
                    &&& rest.remaining == params.remaining - 1
                }
            }
        }),
{
    let now = payment_taken(s, ctx, payer, id, amount, tip).state;
    let next_id = (s.counter + 1) as u64;
    assert(s.known(id));
    assert(now.logs.remove(id) =~= s.logs.remove(id));
    if s.subscriptions.contains_key(id) {
        assert(!s.known(next_id));
        assert(!s.invoices.contains_key(next_id) && !s.subscriptions.contains_key(next_id));
        assert(now.invoices.remove(id).remove(next_id) =~= s.invoices.remove(id));
        assert(now.subscriptions.remove(next_id) =~= s.subscriptions.remove(id));
    } else {
        assert(now.invoices.remove(id) =~= s.invoices.remove(id));
    }
}

/// A payment moves its amount from the payer to the contract first. Then each recipient gets the
/// same share of the tip from the payer, which is the tip divided by the number of recipients,
/// rounded down; if that is nothing, there is no transfer. Then the payment is announced. If it
/// completes the invoice, the contract pays each recipient the amount owed to them, in order,
/// announces that, and announces the next invoice of the subscription if there is one. Nothing
/// else is asked of the ledger.
pub proof fn law_what_a_payment_asks_for(
    s: State,
    ctx: ContextView,
    payer: Address,
    id: u64,
    amount: i128,
    tip: i128,
)
    requires
        s.wf(),
        pay_refusal(s, ctx, payer, id, amount, tip) is None,
    ensures
        ({
            let effects = payment_taken(s, ctx, payer, id, amount, tip).effects;
            let invoice = s.invoices[id];
            let token = invoice.token;
            let n = invoice.recipients.len() as int;
            let share = (tip as int) / n;
            let tipped = if share > 0 {
                n
            } else {
                0
            };
            let complete = invoice.funded + amount == total(invoice.amounts);
            let follows = s.subscriptions.contains_key(id);
            &&& effects.len() == 2 + tipped + if complete {
                n + 1 + if follows {
                    1int
                } else {
                    0
                }
            } else {
                0
            }
            &&& effects[0] == EffectView::Transfer(
                Transfer { token, from: payer, to: ctx.contract, amount },
            )
            &&& forall|i: int|
                0 <= i < tipped ==> {
                    &&& #[trigger] effects[1 + i] is Transfer
                    &&& effects[1 + i]->Transfer_0.token == token
                    &&& effects[1 + i]->Transfer_0.from == payer
                    &&& effects[1 + i]->Transfer_0.to == invoice.recipients[i]
                    &&& effects[1 + i]->Transfer_0.amount == share
                }
            &&& effects[1 + tipped] == (EffectView::PaymentReceived {
                id,
                payer,
                amount: amount as int,
            })
            &&& complete ==> {
                &&& forall|i: int|
                    0 <= i < n ==> #[trigger] effects[2 + tipped + i] == EffectView::Transfer(
                        Transfer {
                            token,
                            from: ctx.contract,
                            to: invoice.recipients[i],
                            amount: invoice.amounts[i],
                        },
                    )
                &&& effects[2 + tipped + n] == (EffectView::InvoiceReleased {
                    id,
                    recipients: invoice.recipients,
                })
                &&& follows ==> effects[3 + tipped + n] == (EffectView::InvoiceCreated {
                    id: (s.counter + 1) as u64,
                    creator: s.subscriptions[id].creator,
                    total: total(s.subscriptions[id].amounts),
                })
            }
        }),
{
    let invoice = s.invoices[id];
    let n = invoice.recipients.len() as int;
    let t = tip as int;
    assert(0 <= t / n <= t) by (nonlinear_arith)
        requires
            n > 0,
            t >= 0,
    ;
}

// ---------------------------------------------------------------------------
// Settling
// ---------------------------------------------------------------------------
/// Anyone can release an invoice that is pending and fully funded, as long as there is room for
/// the next invoice of its subscription. Each other input is refused for the first of these that
/// fails.
pub proof fn law_when_invoices_can_be_released(s: State, ctx: ContextView, id: u64)
    ensures
        ({
            let answer = release_refusal(s, ctx, id);
            let invoice = s.invoices[id];
            let found = s.invoices.contains_key(id);
            let open = invoice.status == InvoiceStatus::Pending;
            let full = invoice.funded >= total(invoice.amounts);
            let room = !s.subscriptions.contains_key(id) || (ctx.timestamp + 2_592_000 <= u64::MAX
                && s.counter < u64::MAX);
            &&& answer is None <==> found && open && full && room
            &&& answer == Some(SplitError::InvoiceNotFound) <==> !found
            &&& answer == Some(SplitError::NotPending) <==> found && !open
            &&& answer == Some(SplitError::NotFullyFunded) <==> found && open && !full
            &&& answer == Some(SplitError::Overflow) <==> found && open && full && !room
        }),
{
}

/// A release pays each recipient the amount owed to them from the contract, in order, closes the
/// invoice as released, and logs that in the contract's name. If months are to come after it, the
/// next invoice gets the next number and the subscription's terms, is due 2,592,000 seconds after
/// the call, and has one month fewer to come. Nothing else changes, and nothing else is asked of
/// the ledger.
pub proof fn law_what_a_release_does(s: State, ctx: ContextView, id: u64)
    requires
        s.wf(),
        release_refusal(s, ctx, id) is None,
    ensures
        ({
            let result = released(s, ctx, id);
            let now = result.state;
            let before = s.invoices[id];
            let invoice = now.invoices[id];
            let lines = if s.logs.contains_key(id) {
                s.logs[id]
            } else {
                Seq::empty()
            };
            let params = s.subscriptions[id];
            let follows = s.subscriptions.contains_key(id);
            let next_id = (s.counter + 1) as u64;
            let next = now.invoices[next_id];
            let rest = now.subscriptions[next_id];
            let n = before.recipients.len() as int;
            &&& now.invoices.contains_key(id)
            &&& invoice.creator == before.creator
            &&& invoice.recipients == before.recipients
            &&& invoice.amounts == before.amounts
            &&& invoice.token == before.token
            &&& invoice.deadline == before.deadline
            &&& invoice.funded == before.funded
            &&& invoice.status == InvoiceStatus::Released
            &&& invoice.payments == before.payments
            &&& now.templates == s.templates
            &&& now.logs.contains_key(id)
            &&& now.logs[id] == lines.push(
                AuditEntry {
                    action: AuditAction::Release,
                    actor: ctx.contract,
                    timestamp: ctx.timestamp,
                },
            )
            &&& now.logs.remove(id) == s.logs.remove(id)
            &&& !follows ==> {
                &&& now.counter == s.counter
                &&& now.invoices.remove(id) == s.invoices.remove(id)
                &&& now.subscriptions == s.subscriptions
            }
            &&& follows ==> {
                &&& now.counter == s.counter + 1
                &&& now.invoices.contains_key(next_id)
                &&& now.invoices.remove(id).remove(next_id) == s.invoices.remove(id)
                &&& next.creator == params.creator
                &&& next.recipients == params.recipients
                &&& next.amounts == params.amounts
                &&& next.token == params.token
                &&& next.deadline == ctx.timestamp + 2_592_000
                &&& next.funded == 0
                &&& next.status == InvoiceStatus::Pending
                &&& next.payments.len() == 0
                &&& !now.subscriptions.contains_key(id)
                &&& now.subscriptions.remove(next_id) == s.subscriptions.remove(id)
                &&& now.subscriptions.contains_key(next_id) <==> params.remaining > 1
                &&& params.remaining > 1 ==> {
                    &&& rest.creator == params.creator
                    &&& rest.recipients == params.recipients
                    &&& rest.amounts == params.amounts
                    &&& rest.token == params.token
                    &&& rest.remaining == params.remaining - 1
                }
            }
            &&& result.effects.len() == n + 1 + if follows {
                1int
            } else {
                0
            }
            &&& forall|i: int|
                0 <= i < n ==> #[trigger] result.effects[i] == EffectView::Transfer(
                    Transfer {
                        token: before.token,
                        from: ctx.contract,
                        to: before.recipients[i],
                        amount: before.amounts[i],
                    },
                )
            &&& result.effects[n] == (EffectView::InvoiceReleased {
                id,
                recipients: before.recipients,
            })
            &&& follows ==> result.effects[n + 1] == (EffectView::InvoiceCreated {
                id: next_id,
                creator: params.creator,
                total: total(params.amounts),
            })
        }),
{
    let now = released(s, ctx, id).state;
    let next_id = (s.counter + 1) as u64;
    assert(s.known(id));
    assert(now.logs.remove(id) =~= s.logs.remove(id));
    if s.subscriptions.contains_key(id) {
        assert(!s.known(next_id));
        assert(!s.invoices.contains_key(next_id) && !s.subscriptions.contains_key(next_id));
        assert(now.invoices.remove(id).remove(next_id) =~= s.invoices.remove(id));
        assert(now.subscriptions.remove(next_id) =~= s.subscriptions.remove(id));
    } else {
        assert(now.invoices.remove(id) =~= s.invoices.remove(id));
    }
}

/// Anyone can have an invoice refunded that is pending, past its deadline and not fully funded.
/// Each other input is refused for the first of these that fails.
pub proof fn law_when_invoices_can_be_refunded(s: State, ctx: ContextView, id: u64)
    ensures
        ({
            let answer = refund_refusal(s, ctx, id);
            let invoice = s.invoices[id];
            let found = s.invoices.contains_key(id);
            let open = invoice.status == InvoiceStatus::Pending;
            let late = ctx.timestamp > invoice.deadline;
            let short = invoice.funded < total(invoice.amounts);
            &&& answer is None <==> found && open && late && short
            &&& answer == Some(SplitError::InvoiceNotFound) <==> !found
            &&& answer == Some(SplitError::NotPending) <==> found && !open
            &&& answer == Some(SplitError::DeadlineNotPassed) <==> found && open && !late
            &&& answer == Some(SplitError::FullyFunded) <==> found && open && late && !short
        }),
{
}

/// A refund sends each payer in one transfer from the contract the sum of what they paid, in the
/// order of their first payments, closes the invoice as refunded, and logs that in the contract's
/// name. Nothing else changes, and nothing else is asked of the ledger.
pub proof fn law_what_a_refund_does(s: State, ctx: ContextView, id: u64)
    requires
        s.wf(),
        refund_refusal(s, ctx, id) is None,
    ensures
        ({
            let result = refunded(s, ctx, id);
            let now = result.state;
            let before = s.invoices[id];
            let invoice = now.invoices[id];
            let lines = if s.logs.contains_key(id) {
                s.logs[id]
            } else {
                Seq::empty()
            };
            let who = payers(before.payments);
            &&& now.counter == s.counter
            &&& now.invoices.contains_key(id)
            &&& now.invoices.remove(id) == s.invoices.remove(id)
            &&& now.subscriptions == s.subscriptions
            &&& now.templates == s.templates
            &&& invoice.creator == before.creator
            &&& invoice.recipients == before.recipients
            &&& invoice.amounts == before.amounts
            &&& invoice.token == before.token
            &&& invoice.deadline == before.deadline
            &&& invoice.funded == before.funded
            &&& invoice.status == InvoiceStatus::Refunded
            &&& invoice.payments == before.payments
            &&& now.logs.contains_key(id)
            &&& now.logs[id] == lines.push(
                AuditEntry {
                    action: AuditAction::Refund,
                    actor: ctx.contract,
                    timestamp: ctx.timestamp,
                },
            )
            &&& now.logs.remove(id) == s.logs.remove(id)
            &&& result.effects.len() == who.len() + 1
            &&& forall|i: int|
                0 <= i < who.len() ==> {
                    &&& #[trigger] result.effects[i] is Transfer
                    &&& result.effects[i]->Transfer_0.token == before.token
                    &&& result.effects[i]->Transfer_0.from == ctx.contract
                    &&& result.effects[i]->Transfer_0.to == who[i]
                    &&& result.effects[i]->Transfer_0.amount == paid_by(before.payments, who[i])
                }
            &&& result.effects[who.len() as int] == (EffectView::InvoiceRefunded { id })
        }),
{
    let result = refunded(s, ctx, id);
    let now = result.state;
    let before = s.invoices[id];
    let who = payers(before.payments);
    assert(now.invoices.remove(id) =~= s.invoices.remove(id));
    assert(now.logs.remove(id) =~= s.logs.remove(id));
    assert forall|i: int| 0 <= i < who.len() implies {
        &&& #[trigger] result.effects[i] is Transfer
        &&& result.effects[i]->Transfer_0.token == before.token
        &&& result.effects[i]->Transfer_0.from == ctx.contract
        &&& result.effects[i]->Transfer_0.to == who[i]
        &&& result.effects[i]->Transfer_0.amount == paid_by(before.payments, who[i])
    } by {
        lemma_paid_by_prefix(before.payments, who[i], 0);
    }
}

/// An invoice is cancelled whenever its creator has authorized the call, it is pending, and nobody
/// has paid. Each other input is refused for the first of these that fails.
pub proof fn law_when_invoices_can_be_cancelled(
    s: State,
    ctx: ContextView,
    caller: Address,
    id: u64,
)
    ensures
        ({
            let answer = cancel_refusal(s, ctx, caller, id);
            let invoice = s.invoices[id];
            let authorized = ctx.authorized.contains(caller);
            let found = s.invoices.contains_key(id);
            let open = invoice.status == InvoiceStatus::Pending;
            let own = invoice.creator == caller;
            let unpaid = invoice.payments.len() == 0;
            &&& answer is None <==> authorized && found && open && own && unpaid
            &&& answer == Some(SplitError::NotAuthorized) <==> !authorized
            &&& answer == Some(SplitError::InvoiceNotFound) <==> authorized && !found
            &&& answer == Some(SplitError::NotPending) <==> authorized && found && !open
            &&& answer == Some(SplitError::OnlyCreatorCancels) <==> authorized && found && open
                && !own
            &&& answer == Some(SplitError::PaymentsStarted) <==> authorized && found && open && own
                && !unpaid
        }),
{
}

/// Cancelling closes the invoice as refunded and logs that in the creator's name. Nothing else
/// changes, and nothing is asked of the ledger.
pub proof fn law_what_cancelling_does(s: State, ctx: ContextView, caller: Address, id: u64)
    requires
        cancel_refusal(s, ctx, caller, id) is None,
    ensures
        ({
            let result = cancelled(s, ctx, caller, id);
            let now = result.state;
            let before = s.invoices[id];
            let invoice = now.invoices[id];
            let lines = if s.logs.contains_key(id) {
                s.logs[id]
            } else {
                Seq::empty()
            };
            &&& now.counter == s.counter
            &&& now.invoices.contains_key(id)
            &&& now.invoices.remove(id) == s.invoices.remove(id)
            &&& now.subscriptions == s.subscriptions
            &&& now.templates == s.templates
            &&& invoice.creator == before.creator
            &&& invoice.recipients == before.recipients
            &&& invoice.amounts == before.amounts
            &&& invoice.token == before.token
            &&& invoice.deadline == before.deadline
            &&& invoice.funded == before.funded
            &&& invoice.status == InvoiceStatus::Refunded
            &&& invoice.payments == before.payments
            &&& now.logs.contains_key(id)
            &&& now.logs[id] == lines.push(
                AuditEntry { action: AuditAction::Cancel, actor: caller, timestamp: ctx.timestamp },
            )
            &&& now.logs.remove(id) == s.logs.remove(id)
            &&& result.effects.len() == 0
        }),
{
    let now = cancelled(s, ctx, caller, id).state;
    assert(now.invoices.remove(id) =~= s.invoices.remove(id));
    assert(now.logs.remove(id) =~= s.logs.remove(id));
}

/// A deadline is moved whenever the creator has authorized the call, the invoice is pending, and
/// the new deadline is in the future. Each other input is refused for the first of these that
/// fails.
pub proof fn law_when_deadlines_can_be_moved(
    s: State,
    ctx: ContextView,
    caller: Address,
    id: u64,
    new_deadline: u64,
)
    ensures
        ({
            let answer = extend_refusal(s, ctx, caller, id, new_deadline);
            let invoice = s.invoices[id];
            let authorized = ctx.authorized.contains(caller);
            let found = s.invoices.contains_key(id);
            let open = invoice.status == InvoiceStatus::Pending;
            let own = invoice.creator == caller;
            let future = new_deadline > ctx.timestamp;
            &&& answer is None <==> authorized && found && open && own && future
            &&& answer == Some(SplitError::NotAuthorized) <==> !authorized
            &&& answer == Some(SplitError::InvoiceNotFound) <==> authorized && !found
            &&& answer == Some(SplitError::NotPending) <==> authorized && found && !open
            &&& answer == Some(SplitError::OnlyCreatorExtends) <==> authorized && found && open
                && !own
            &&& answer == Some(SplitError::NewDeadlineNotInFuture) <==> authorized && found && open
                && own && !future
        }),
{
}

/// Moving a deadline makes it the new one and logs that in the creator's name. Nothing else
/// changes, and nothing is asked of the ledger.
pub proof fn law_what_moving_a_deadline_does(
    s: State,
    ctx: ContextView,
    caller: Address,
    id: u64,
    new_deadline: u64,
)
    requires
        extend_refusal(s, ctx, caller, id, new_deadline) is None,
    ensures
        ({
            let result = extended(s, ctx, caller, id, new_deadline);
            let now = result.state;
            let before = s.invoices[id];
            let invoice = now.invoices[id];
            let lines = if s.logs.contains_key(id) {
                s.logs[id]
            } else {
                Seq::empty()
            };
            &&& now.counter == s.counter
            &&& now.invoices.contains_key(id)
            &&& now.invoices.remove(id) == s.invoices.remove(id)
            &&& now.subscriptions == s.subscriptions
            &&& now.templates == s.templates
            &&& invoice.creator == before.creator
            &&& invoice.recipients == before.recipients
            &&& invoice.amounts == before.amounts
            &&& invoice.token == before.token
            &&& invoice.deadline == new_deadline
            &&& invoice.funded == before.funded
            &&& invoice.status == InvoiceStatus::Pending
            &&& invoice.payments == before.payments
            &&& now.logs.contains_key(id)
            &&& now.logs[id] == lines.push(
                AuditEntry { action: AuditAction::Extend, actor: caller, timestamp: ctx.timestamp },
            )
            &&& now.logs.remove(id) == s.logs.remove(id)
            &&& result.effects.len() == 0
        }),
{
    let now = extended(s, ctx, caller, id, new_deadline).state;
    assert(now.invoices.remove(id) =~= s.invoices.remove(id));
    assert(now.logs.remove(id) =~= s.logs.remove(id));
}

// ---------------------------------------------------------------------------
// One call after another
// ---------------------------------------------------------------------------
/// Once an invoice is refunded, cancelled or paid out, every further payment, release, refund,
/// cancellation or move of its deadline is refused as not pending, and a completion proof is given
/// for it.
pub proof fn law_closing_an_invoice(
    s: State,
    ctx: ContextView,
    request: Request,
    id: u64,
    later: ContextView,
    who: Address,
    amount: i128,
    tip: i128,
    new_deadline: u64,
)
    requires
        s.wf(),
        accepted(s, ctx, request),
        match request {
            Request::Pay { id: target, amount: paid, .. } => target == id && paid == total(
                s.invoices[id].amounts,
            ) - s.invoices[id].funded,
            Request::Release { id: target } => target == id,
            Request::Refund { id: target } => target == id,
            Request::CancelInvoice { id: target, .. } => target == id,
            _ => false,
        },
        later.authorized.contains(who),
    ensures
        ({
            let now = after(s, ctx, request);
            let refused = Some(SplitError::NotPending);
            &&& refusal(now, later, Request::Pay { payer: who, id, amount, tip }) == refused
            &&& refusal(now, later, Request::Release { id }) == refused
            &&& refusal(now, later, Request::Refund { id }) == refused
            &&& refusal(now, later, Request::CancelInvoice { caller: who, id }) == refused
            &&& refusal(now, later, Request::ExtendDeadline { caller: who, id, new_deadline })
                == refused
            &&& completion_refusal(now, id) is None
        }),
{
    match request {
        Request::Pay { payer, amount: paid, tip: given, .. } => {
            law_what_a_completing_payment_does(s, ctx, payer, id, paid, given);
        },
        Request::Release { .. } => {
            law_what_a_release_does(s, ctx, id);
        },
        _ => {},
    }
}

/// Once a deadline is moved, the payments that are taken are those up to the new deadline, and the
/// refund waits until it has passed.
pub proof fn law_moving_a_deadline(
    s: State,
    ctx: ContextView,
    caller: Address,
    id: u64,
    new_deadline: u64,
    later: ContextView,
    payer: Address,
    amount: i128,
)
    requires
        s.wf(),
        accepted(s, ctx, Request::ExtendDeadline { caller, id, new_deadline }),
        later.authorized.contains(payer),
        0 < amount < total(s.invoices[id].amounts) - s.invoices[id].funded,
    ensures
        ({
            let now = after(s, ctx, Request::ExtendDeadline { caller, id, new_deadline });
            &&& accepted(now, later, Request::Pay { payer, id, amount, tip: 0 })
                <==> later.timestamp <= new_deadline
            &&& accepted(now, later, Request::Refund { id }) <==> later.timestamp > new_deadline
        }),
{
}

/// Several people can pay their shares one after the other: as long as a payment leaves something
/// missing, the next one that fits is taken too, whoever pays it.
pub proof fn law_shares_are_paid_one_by_one(
    s: State,
    ctx: ContextView,
    payer: Address,
    id: u64,
    amount: i128,
    tip: i128,
    later: ContextView,
    other: Address,
    share: i128,
)
    requires
        s.wf(),
        accepted(s, ctx, Request::Pay { payer, id, amount, tip }),
        later.authorized.contains(other),
        later.timestamp <= s.invoices[id].deadline,
        share > 0,
        amount + share < total(s.invoices[id].amounts) - s.invoices[id].funded,
    ensures
        accepted(
            after(s, ctx, Request::Pay { payer, id, amount, tip }),
            later,
            Request::Pay { payer: other, id, amount: share, tip: 0 },
        ),
{
}

/// A request is what the call of that name does: it is refused as that call refuses, and leads to
/// what that call leads to.
pub proof fn law_requests_are_the_calls(
    s: State,
    ctx: ContextView,
    a: Address,
    name: Seq<char>,
    recipients: Seq<Address>,
    amounts: Seq<i128>,
    token: Address,
    id: u64,
    when: u64,
    months: u32,
    amount: i128,
    tip: i128,
)
    ensures
        ({
            let create = Request::CreateInvoice {
                creator: a,
                recipients,
                amounts,
                token,
                deadline: when,
            };
            let subscribe = Request::CreateSubscription {
                creator: a,
                recipients,
                amounts,
                token,
                months,
            };
            let save = Request::SaveTemplate { creator: a, name, recipients, amounts, token };
            let template = TemplateView { recipients, amounts, token };
            let use_template = Request::CreateFromTemplate { creator: a, name, deadline: when };
            let copy = Request::CloneInvoice { caller: a, source_id: id, new_deadline: when };
            let pay = Request::Pay { payer: a, id, amount, tip };
            let release = Request::Release { id };
            let refund = Request::Refund { id };
            let cancel = Request::CancelInvoice { caller: a, id };
            let extend = Request::ExtendDeadline { caller: a, id, new_deadline: when };
            &&& refusal(s, ctx, create) == create_invoice_refusal(
                s,
                ctx,
                a,
                recipients,
                amounts,
                when,
            )
            &&& outcome(s, ctx, create) == created(s, a, recipients, amounts, token, when)
            &&& refusal(s, ctx, subscribe) == create_subscription_refusal(
                s,
                ctx,
                a,
                recipients,
                amounts,
                months,
            )
            &&& outcome(s, ctx, subscribe) == subscribed(
                s,
                ctx,
                a,
                recipients,
                amounts,
                token,
                months,
            )
            &&& refusal(s, ctx, save) == save_template_refusal(ctx, a, recipients, amounts)
            &&& outcome(s, ctx, save) == template_saved(s, a, name, template)
            &&& refusal(s, ctx, use_template) == create_from_template_refusal(s, ctx, a, name, when)
            &&& outcome(s, ctx, use_template) == created_from_template(s, a, name, when)
            &&& refusal(s, ctx, copy) == clone_invoice_refusal(s, ctx, a, id, when)
            &&& outcome(s, ctx, copy) == cloned_invoice(s, a, id, when)
            &&& refusal(s, ctx, pay) == pay_refusal(s, ctx, a, id, amount, tip)
            &&& outcome(s, ctx, pay) == payment_taken(s, ctx, a, id, amount, tip)
            &&& refusal(s, ctx, release) == release_refusal(s, ctx, id)
            &&& outcome(s, ctx, release) == released(s, ctx, id)
            &&& refusal(s, ctx, refund) == refund_refusal(s, ctx, id)
            &&& outcome(s, ctx, refund) == refunded(s, ctx, id)
            &&& refusal(s, ctx, cancel) == cancel_refusal(s, ctx, a, id)
            &&& outcome(s, ctx, cancel) == cancelled(s, ctx, a, id)
            &&& refusal(s, ctx, extend) == extend_refusal(s, ctx, a, id, when)
            &&& outcome(s, ctx, extend) == extended(s, ctx, a, id, when)
        }),
{
}

} // verus!
