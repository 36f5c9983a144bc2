//! What holds of the contract as a whole, whatever is asked of it.
use vstd::prelude::*;

use crate::completion::{completion_message, completion_refusal};
use crate::context::ContextView;
use crate::error::SplitError;
use crate::model::{entry, fresh_invoice, paid_out, payment_recorded, successor_overflows, State};
use crate::money::{
    all_positive, lemma_paid_prefix, lemma_paid_push, lemma_total_prefix, paid, paid_by,
    total,
};
use crate::requests::{accepted, after, outcome, pays_out, refusal, Request};
use crate::types::{Address, AuditAction, AuditEntry, InvoiceStatus, InvoiceView, Payment};
use crate::validity::{
    lemma_created_valid, lemma_paid_out_valid, lemma_payment_taken_valid, lemma_subscribed_valid,
    lemma_touched_valid,
};

verus! {

/// Every accepted request keeps every record valid. In particular an invoice never holds more
/// than it asks for, holds exactly what was paid toward it, and is paid out only when it holds
/// all that it asks for.
pub proof fn law_records_stay_valid(s: State, ctx: ContextView, request: Request)
    requires
        s.wf(),
        accepted(s, ctx, request),
    ensures
        after(s, ctx, request).wf(),
{
    match request {
        Request::CreateInvoice { creator, recipients, amounts, token, deadline } => {
            lemma_created_valid(s, creator, recipients, amounts, token, deadline);
        },
        Request::CreateSubscription { creator, recipients, amounts, token, months } => {
            lemma_subscribed_valid(s, ctx, creator, recipients, amounts, token, months);
        },
        Request::CreateFromTemplate { creator, name, deadline } => {
            let t = s.templates[(creator, name)];
            lemma_created_valid(s, creator, t.recipients, t.amounts, t.token, deadline);
        },
        Request::CloneInvoice { caller, source_id, new_deadline } => {
            let i = s.invoices[source_id];
            lemma_created_valid(s, caller, i.recipients, i.amounts, i.token, new_deadline);
        },
        Request::SaveTemplate { creator, name, recipients, amounts, token } => {},
        Request::Pay { payer, id, amount, tip } => {
            lemma_payment_taken_valid(s, ctx, payer, id, amount, tip);
        },
        Request::Release { id } => {
            lemma_paid_out_valid(s, ctx, id, ctx.contract);
        },
        Request::Refund { id } => {
            lemma_touched_valid(
                s,
                id,
                InvoiceView { status: InvoiceStatus::Refunded, ..s.invoices[id] },
                entry(ctx, AuditAction::Refund, ctx.contract),
            );
        },
        Request::CancelInvoice { caller, id } => {
            lemma_touched_valid(
                s,
                id,
                InvoiceView { status: InvoiceStatus::Refunded, ..s.invoices[id] },
                entry(ctx, AuditAction::Cancel, caller),
            );
        },
        Request::ExtendDeadline { caller, id, new_deadline } => {
            lemma_touched_valid(
                s,
                id,
                InvoiceView { deadline: new_deadline, ..s.invoices[id] },
                entry(ctx, AuditAction::Extend, caller),
            );
        },
    }
}

/// Identifiers only grow, by one at a time, and an invoice that appears takes one that was never
/// given out before.
pub proof fn law_identifiers_never_reused(s: State, ctx: ContextView, request: Request)
    requires
        s.wf(),
        accepted(s, ctx, request),
    ensures
        s.counter <= after(s, ctx, request).counter <= s.counter + 1,
        forall|id: u64| #[trigger]
            after(s, ctx, request).invoices.contains_key(id) && !s.invoices.contains_key(id) ==> id
                == s.counter + 1 && id == after(s, ctx, request).counter,
{
}

/// No invoice disappears, and its creator, recipients, amounts and token never change.
pub proof fn law_terms_never_change(s: State, ctx: ContextView, request: Request, id: u64)
    requires
        s.wf(),
        accepted(s, ctx, request),
        s.invoices.contains_key(id),
    ensures
        after(s, ctx, request).invoices.contains_key(id),
        ({
            let before = s.invoices[id];
            let now = after(s, ctx, request).invoices[id];
            &&& now.creator == before.creator
            &&& now.recipients == before.recipients
            &&& now.amounts == before.amounts
            &&& now.token == before.token
        }),
{
}

/// An invoice that is no longer pending never changes again.
pub proof fn law_final_is_final(s: State, ctx: ContextView, request: Request, id: u64)
    requires
        s.wf(),
        accepted(s, ctx, request),
        s.invoices.contains_key(id),
        s.invoices[id].status != InvoiceStatus::Pending,
    ensures
        after(s, ctx, request).invoices.contains_key(id),
        after(s, ctx, request).invoices[id] == s.invoices[id],
{
}

/// Audit logs are only ever appended to, and the new lines carry the time of the call.
pub proof fn law_logs_only_grow(s: State, ctx: ContextView, request: Request, id: u64)
    requires
        s.wf(),
        accepted(s, ctx, request),
    ensures
        s.log(id).is_prefix_of(after(s, ctx, request).log(id)),
        forall|i: int|
            s.log(id).len() <= i < after(s, ctx, request).log(id).len() ==> (
            #[trigger] after(s, ctx, request).log(id)[i]).timestamp == ctx.timestamp,
{
}

/// The lines that an accepted request adds to the audit log of an invoice.
pub open spec fn lines_added(s: State, ctx: ContextView, request: Request, id: u64) -> Seq<
    AuditEntry,
> {
    match request {
        Request::Pay { payer, id: target, .. } => if target != id {
            Seq::empty()
        } else if pays_out(s, request, id) {
            seq![
                entry(ctx, AuditAction::Pay, payer),
                entry(ctx, AuditAction::Release, s.invoices[id].creator),
            ]
        } else {
            seq![entry(ctx, AuditAction::Pay, payer)]
        },
        Request::Release { id: target } => if target == id {
            seq![entry(ctx, AuditAction::Release, ctx.contract)]
        } else {
            Seq::empty()
        },
        Request::Refund { id: target } => if target == id {
            seq![entry(ctx, AuditAction::Refund, ctx.contract)]
        } else {
            Seq::empty()
        },
        Request::CancelInvoice { caller, id: target } => if target == id {
            seq![entry(ctx, AuditAction::Cancel, caller)]
        } else {
            Seq::empty()
        },
        Request::ExtendDeadline { caller, id: target, .. } => if target == id {
            seq![entry(ctx, AuditAction::Extend, caller)]
        } else {
            Seq::empty()
        },
        _ => Seq::empty(),
    }
}

/// The audit log says who did what to an invoice: a request adds the lines of what it does, and no
/// others.
pub proof fn law_log_says_what_happened(s: State, ctx: ContextView, request: Request, id: u64)
    requires
        s.wf(),
        accepted(s, ctx, request),
    ensures
        after(s, ctx, request).log(id) == s.log(id) + lines_added(s, ctx, request, id),
{
    let log = after(s, ctx, request).log(id);
    assert(log =~= s.log(id) + lines_added(s, ctx, request, id));
}

/// An invoice changes only together with its audit log.
pub proof fn law_changes_are_logged(s: State, ctx: ContextView, request: Request, id: u64)
    requires
        s.wf(),
        accepted(s, ctx, request),
        s.invoices.contains_key(id),
        after(s, ctx, request).invoices[id] != s.invoices[id],
    ensures
        s.log(id).len() < after(s, ctx, request).log(id).len(),
{
    match request {
        Request::Pay { payer, id: target, amount, tip } => {
            let invoice = s.invoices[target];
            let recorded = payment_recorded(s, ctx, payer, target, amount);
            if invoice.funded + amount == invoice.total() {
                lemma_payout_frame(recorded, ctx, target, invoice.creator, id);
            }
        },
        Request::Release { id: target } => {
            lemma_payout_frame(s, ctx, target, ctx.contract, id);
        },
        Request::Refund { id: target } => {},
        Request::CancelInvoice { caller, id: target } => {},
        Request::ExtendDeadline { caller, id: target, new_deadline } => {},
        Request::CreateInvoice { .. } => {},
        Request::CreateSubscription { .. } => {},
        Request::CreateFromTemplate { .. } => {},
        Request::CloneInvoice { .. } => {},
        Request::SaveTemplate { .. } => {},
    }
}

/// A request changes at most one of the invoices that exist.
pub proof fn law_one_invoice_at_a_time(
    s: State,
    ctx: ContextView,
    request: Request,
    id: u64,
    other: u64,
)
    requires
        s.wf(),
        accepted(s, ctx, request),
        s.invoices.contains_key(id),
        s.invoices.contains_key(other),
        id != other,
    ensures
        after(s, ctx, request).invoices[id] == s.invoices[id] || after(
            s,
            ctx,
            request,
        ).invoices[other] == s.invoices[other],
{
}

/// Every pending invoice still lacks something.
pub open spec fn settled(s: State) -> bool {
    forall|id: u64| #[trigger]
        s.invoices.contains_key(id) && s.invoices[id].status == InvoiceStatus::Pending
            ==> s.invoices[id].funded < s.invoices[id].total()
}

/// An invoice that is fully funded is paid out in the same call: from the first state on, no
/// invoice is ever left pending with all that it asks for.
pub proof fn law_funded_invoices_are_released(s: State, ctx: ContextView, request: Request)
    ensures
        settled(State::initial()),
        s.wf() && settled(s) && accepted(s, ctx, request) ==> settled(after(s, ctx, request)),
{
    if s.wf() && settled(s) && accepted(s, ctx, request) {
        law_records_stay_valid(s, ctx, request);
        let next = after(s, ctx, request);
        assert forall|id: u64| #[trigger]
            next.invoices.contains_key(id) && next.invoices[id].status
                == InvoiceStatus::Pending implies next.invoices[id].funded
            < next.invoices[id].total() by {
            lemma_total_positive(next.invoices[id].amounts);
            match request {
                Request::Pay { payer, id: target, amount, tip } => {
                    let invoice = s.invoices[target];
                    let recorded = payment_recorded(s, ctx, payer, target, amount);
                    if invoice.funded + amount == invoice.total() && id <= s.counter {
                        lemma_payout_frame(recorded, ctx, target, invoice.creator, id);
                    }
                },
                Request::Release { id: target } => {
                    if id <= s.counter {
                        lemma_payout_frame(s, ctx, target, ctx.contract, id);
                    }
                },
                _ => {},
            }
        }
    }
}

/// An invoice is released if and only if it is fully funded, and none is marked as cancelled.
pub open spec fn concluded(s: State) -> bool {
    forall|id: u64| #[trigger]
        s.invoices.contains_key(id) ==> {
            &&& s.invoices[id].status == InvoiceStatus::Released <==> s.invoices[id].funded
                == s.invoices[id].total()
            &&& s.invoices[id].status != InvoiceStatus::Cancelled
        }
}

/// From the first state on, exactly the fully funded invoices are released: every call keeps it
/// so. No call marks an invoice as cancelled.
pub proof fn law_released_means_funded(s: State, ctx: ContextView, request: Request)
    ensures
        concluded(State::initial()),
        s.wf() && concluded(s) && accepted(s, ctx, request) ==> concluded(after(s, ctx, request)),
{
    if s.wf() && concluded(s) && accepted(s, ctx, request) {
        law_records_stay_valid(s, ctx, request);
        let next = after(s, ctx, request);
        assert forall|id: u64| #[trigger] next.invoices.contains_key(id) implies {
            &&& next.invoices[id].status == InvoiceStatus::Released <==> next.invoices[id].funded
                == next.invoices[id].total()
            &&& next.invoices[id].status != InvoiceStatus::Cancelled
        } by {
            lemma_total_positive(next.invoices[id].amounts);
            if s.known(id) {
                assert(s.invoices.contains_key(id));
            }
            match request {
                Request::Pay { payer, id: target, amount, tip } => {
                    let invoice = s.invoices[target];
                    let recorded = payment_recorded(s, ctx, payer, target, amount);
                    if invoice.funded + amount == invoice.total() && id <= s.counter {
                        lemma_payout_frame(recorded, ctx, target, invoice.creator, id);
                    }
                },
                Request::Release { id: target } => {
                    if id <= s.counter {
                        lemma_payout_frame(s, ctx, target, ctx.contract, id);
                    }
                },
                Request::CancelInvoice { caller, id: target } => {
                    assert(paid(s.invoices[target].payments) == 0);
                },
                _ => {},
            }
        }
    }
}

/// No call of `release` succeeds in a state that the contract reaches by its own calls, because
/// the payment that completes an invoice has already released it.
pub proof fn law_release_comes_too_late(s: State, ctx: ContextView, id: u64)
    requires
        s.wf(),
        settled(s),
    ensures
        refusal(s, ctx, Request::Release { id }) == Some(
            if !s.invoices.contains_key(id) {
                SplitError::InvoiceNotFound
            } else if s.invoices[id].status != InvoiceStatus::Pending {
                SplitError::NotPending
            } else {
                SplitError::NotFullyFunded
            },
        ),
{
}

/// An invoice is never open to payments and to a refund at the same time.
pub proof fn law_no_payment_when_refundable(
    s: State,
    ctx: ContextView,
    payer: Address,
    id: u64,
    amount: i128,
    tip: i128,
)
    ensures
        !(accepted(s, ctx, Request::Pay { payer, id, amount, tip }) && accepted(
            s,
            ctx,
            Request::Refund { id },
        )),
{
}

/// A pending invoice is never stuck: until its deadline anyone can complete it, as long as the
/// next invoice of its subscription is in range, and after its deadline anyone can have it
/// refunded.
pub proof fn law_no_invoice_is_stuck(s: State, ctx: ContextView, id: u64, payer: Address)
    requires
        s.wf(),
        settled(s),
        s.invoices.contains_key(id),
        s.invoices[id].status == InvoiceStatus::Pending,
    ensures
        ctx.timestamp > s.invoices[id].deadline ==> accepted(s, ctx, Request::Refund { id }),
        ctx.timestamp <= s.invoices[id].deadline && ctx.authorized.contains(payer)
            && !successor_overflows(s, ctx.timestamp, id) ==> accepted(
            s,
            ctx,
            Request::Pay {
                payer,
                id,
                amount: (s.invoices[id].total() - s.invoices[id].funded) as i128,
                tip: 0,
            },
        ),
{
    lemma_paid_prefix(s.invoices[id].payments, 0);
}

/// Nobody can pay, create, save, clone, cancel or extend in the name of an address that has not
/// authorized the call; such a request is refused before anything else is looked at.
pub proof fn law_nothing_without_authorization(s: State, ctx: ContextView, request: Request)
    requires
        match request {
            Request::CreateInvoice { creator, .. } => !ctx.authorized.contains(creator),
            Request::CreateSubscription { creator, .. } => !ctx.authorized.contains(creator),
            Request::CreateFromTemplate { creator, .. } => !ctx.authorized.contains(creator),
            Request::CloneInvoice { caller, .. } => !ctx.authorized.contains(caller),
            Request::SaveTemplate { creator, .. } => !ctx.authorized.contains(creator),
            Request::Pay { payer, .. } => !ctx.authorized.contains(payer),
            Request::CancelInvoice { caller, .. } => !ctx.authorized.contains(caller),
            Request::ExtendDeadline { caller, .. } => !ctx.authorized.contains(caller),
            Request::Release { .. } => false,
            Request::Refund { .. } => false,
        },
    ensures
        refusal(s, ctx, request) == Some(SplitError::NotAuthorized),
{
}

/// Anyone may release or refund: who has authorized the call makes no difference.
pub proof fn law_anyone_may_settle(s: State, ctx: ContextView, other: ContextView, id: u64)
    requires
        ctx.timestamp == other.timestamp,
        ctx.contract == other.contract,
    ensures
        refusal(s, ctx, Request::Release { id }) == refusal(s, other, Request::Release { id }),
        refusal(s, ctx, Request::Refund { id }) == refusal(s, other, Request::Refund { id }),
        outcome(s, ctx, Request::Release { id }) == outcome(s, other, Request::Release { id }),
        outcome(s, ctx, Request::Refund { id }) == outcome(s, other, Request::Refund { id }),
{
}

/// Only its creator can cancel an invoice or move its deadline, and only before it is closed;
/// once somebody has paid it can no longer be cancelled.
pub proof fn law_creator_only(s: State, ctx: ContextView, caller: Address, id: u64, when: u64)
    ensures
        accepted(s, ctx, Request::CancelInvoice { caller, id }) ==> s.invoices[id].creator == caller
            && s.invoices[id].status == InvoiceStatus::Pending && s.invoices[id].payments.len()
            == 0,
        accepted(s, ctx, Request::ExtendDeadline { caller, id, new_deadline: when })
            ==> s.invoices[id].creator == caller && s.invoices[id].status
            == InvoiceStatus::Pending && when > ctx.timestamp,
{
}

/// After a payment, its payer has contributed that much more, and everyone else what they had.
pub proof fn law_payment_is_credited(
    s: State,
    ctx: ContextView,
    payer: Address,
    id: u64,
    amount: i128,
    tip: i128,
    who: Address,
)
    requires
        s.wf(),
        accepted(s, ctx, Request::Pay { payer, id, amount, tip }),
    ensures
        paid_by(
            after(s, ctx, Request::Pay { payer, id, amount, tip }).invoices[id].payments,
            who,
        ) == paid_by(s.invoices[id].payments, who) + if who == payer {
            amount as int
        } else {
            0
        },
        after(s, ctx, Request::Pay { payer, id, amount, tip }).invoices[id].funded
            == s.invoices[id].funded + amount,
{
    let invoice = s.invoices[id];
    lemma_paid_push(invoice.payments, Payment { payer, amount });
    let recorded = payment_recorded(s, ctx, payer, id, amount);
    if invoice.funded + amount == invoice.total() {
        lemma_payout_frame(recorded, ctx, id, invoice.creator, id);
    }
}

/// Only a payment toward an invoice adds to its payments, and then exactly that payment. An
/// invoice that appears has none.
pub proof fn law_payments_come_from_pay(s: State, ctx: ContextView, request: Request, id: u64)
    requires
        s.wf(),
        accepted(s, ctx, request),
        after(s, ctx, request).invoices.contains_key(id),
    ensures
        after(s, ctx, request).invoices[id].payments == if !s.invoices.contains_key(id) {
            Seq::empty()
        } else {
            match request {
                Request::Pay { payer, id: target, amount, .. } => if target == id {
                    s.invoices[id].payments.push(Payment { payer, amount })
                } else {
                    s.invoices[id].payments
                },
                _ => s.invoices[id].payments,
            }
        },
{
    match request {
        Request::Pay { payer, id: target, amount, tip } => {
            let invoice = s.invoices[target];
            let recorded = payment_recorded(s, ctx, payer, target, amount);
            if invoice.funded + amount == invoice.total() && id <= s.counter {
                lemma_payout_frame(recorded, ctx, target, invoice.creator, id);
            }
        },
        Request::Release { id: target } => {
            if id <= s.counter {
                lemma_payout_frame(s, ctx, target, ctx.contract, id);
            }
        },
        _ => {},
    }
}

/// Only three things close an invoice: a payout of all that it asks for, a refund after its
/// deadline, or its creator cancelling it before anyone has paid. Only its creator moves its
/// deadline.
pub proof fn law_how_invoices_change(s: State, ctx: ContextView, request: Request, id: u64)
    requires
        s.wf(),
        accepted(s, ctx, request),
        s.invoices.contains_key(id),
    ensures
        ({
            let before = s.invoices[id];
            let now = after(s, ctx, request).invoices[id];
            &&& now.status != before.status ==> {
                &&& before.status == InvoiceStatus::Pending
                &&& now.status == InvoiceStatus::Released && now.funded == now.total()
                    && pays_out(s, request, id) || now.status == InvoiceStatus::Refunded && (
                request == (Request::Refund { id }) && ctx.timestamp > before.deadline
                    && before.funded < before.total() || request == (Request::CancelInvoice {
                    caller: before.creator,
                    id,
                }) && before.payments.len() == 0)
            }
            &&& now.deadline != before.deadline ==> request == (Request::ExtendDeadline {
                caller: before.creator,
                id,
                new_deadline: now.deadline,
            })
        }),
{
    match request {
        Request::Pay { payer, id: target, amount, tip } => {
            let invoice = s.invoices[target];
            let recorded = payment_recorded(s, ctx, payer, target, amount);
            if invoice.funded + amount == invoice.total() {
                lemma_payout_frame(recorded, ctx, target, invoice.creator, id);
            }
        },
        Request::Release { id: target } => {
            lemma_payout_frame(s, ctx, target, ctx.contract, id);
        },
        _ => {},
    }
}

/// A payment that completes an invoice releases it; any other leaves it pending.
pub proof fn law_payment_releases_when_complete(
    s: State,
    ctx: ContextView,
    payer: Address,
    id: u64,
    amount: i128,
    tip: i128,
)
    requires
        s.wf(),
        accepted(s, ctx, Request::Pay { payer, id, amount, tip }),
    ensures
        after(s, ctx, Request::Pay { payer, id, amount, tip }).invoices[id].status == if amount
            == s.invoices[id].total() - s.invoices[id].funded {
            InvoiceStatus::Released
        } else {
            InvoiceStatus::Pending
        },
{
    let invoice = s.invoices[id];
    let recorded = payment_recorded(s, ctx, payer, id, amount);
    if invoice.funded + amount == invoice.total() {
        lemma_payout_frame(recorded, ctx, id, invoice.creator, id);
    }
}

/// A saved template is what an invoice made from it gets: its recipients, amounts and token, the
/// creator and the deadline asked for, and nothing paid. A template saved later under the same
/// name takes its place, and no other template is touched.
pub proof fn law_template_comes_back(
    s: State,
    ctx: ContextView,
    creator: Address,
    name: Seq<char>,
    recipients: Seq<Address>,
    amounts: Seq<i128>,
    token: Address,
    later: ContextView,
    deadline: u64,
)
    requires
        s.wf(),
        accepted(s, ctx, Request::SaveTemplate { creator, name, recipients, amounts, token }),
    ensures
        ({
            let saved = after(
                s,
                ctx,
                Request::SaveTemplate { creator, name, recipients, amounts, token },
            );
            let request = Request::CreateFromTemplate { creator, name, deadline };
            &&& later.authorized.contains(creator) && deadline > later.timestamp && s.counter
                < u64::MAX && total(amounts) <= i128::MAX ==> accepted(saved, later, request)
            &&& after(saved, later, request).invoices[s.next_id()] == fresh_invoice(
                creator,
                recipients,
                amounts,
                token,
                deadline,
            )
            &&& forall|key: (Address, Seq<char>)|
                key != (creator, name) ==> (#[trigger] saved.templates.contains_key(key)
                    == s.templates.contains_key(key)) && saved.templates[key] == s.templates[key]
        }),
{
}

/// A clone asks for the same as its source, from scratch, and leaves the source as it is.
pub proof fn law_clone_starts_afresh(
    s: State,
    ctx: ContextView,
    caller: Address,
    source_id: u64,
    new_deadline: u64,
)
    requires
        s.wf(),
        accepted(s, ctx, Request::CloneInvoice { caller, source_id, new_deadline }),
    ensures
        ({
            let next = after(s, ctx, Request::CloneInvoice { caller, source_id, new_deadline });
            let source = s.invoices[source_id];
            &&& s.next_id() != source_id
            &&& next.invoices[source_id] == source
            &&& next.invoices[s.next_id()] == fresh_invoice(
                caller,
                source.recipients,
                source.amounts,
                source.token,
                new_deadline,
            )
        }),
{
}

/// The state that a list of requests leads to. A refused request changes nothing.
pub open spec fn run(s: State, history: Seq<(ContextView, Request)>) -> State
    decreases history.len(),
{
    if history.len() == 0 {
        s
    } else {
        let before = run(s, history.drop_last());
        let (ctx, request) = history.last();
        if accepted(before, ctx, request) {
            after(before, ctx, request)
        } else {
            before
        }
    }
}

/// Whatever is asked of a newly deployed contract, its records are valid, no invoice is left
/// pending with all that it asks for, exactly the fully funded invoices are released, and none is
/// marked as cancelled.
pub proof fn law_every_history_is_sound(history: Seq<(ContextView, Request)>)
    ensures
        run(State::initial(), history).wf(),
        settled(run(State::initial(), history)),
        concluded(run(State::initial(), history)),
    decreases history.len(),
{
    if history.len() > 0 {
        law_every_history_is_sound(history.drop_last());
        let before = run(State::initial(), history.drop_last());
        let (ctx, request) = history.last();
        if accepted(before, ctx, request) {
            law_records_stay_valid(before, ctx, request);
            law_funded_invoices_are_released(before, ctx, request);
            law_released_means_funded(before, ctx, request);
        }
    }
}

/// Whatever is asked later, no invoice disappears, and its creator, recipients, amounts and token
/// stay what they are.
pub proof fn law_terms_never_change_in(s: State, history: Seq<(ContextView, Request)>, id: u64)
    requires
        s.wf(),
        s.invoices.contains_key(id),
    ensures
        run(s, history).wf(),
        run(s, history).invoices.contains_key(id),
        ({
            let before = s.invoices[id];
            let now = run(s, history).invoices[id];
            &&& now.creator == before.creator
            &&& now.recipients == before.recipients
            &&& now.amounts == before.amounts
            &&& now.token == before.token
        }),
    decreases history.len(),
{
    if history.len() > 0 {
        law_terms_never_change_in(s, history.drop_last(), id);
        let before = run(s, history.drop_last());
        let (ctx, request) = history.last();
        if accepted(before, ctx, request) {
            law_records_stay_valid(before, ctx, request);
            law_terms_never_change(before, ctx, request, id);
        }
    }
}

/// Whatever is asked later, every line of an audit log stays where it is.
pub proof fn law_logs_only_grow_in(s: State, history: Seq<(ContextView, Request)>, id: u64)
    requires
        s.wf(),
    ensures
        run(s, history).wf(),
        s.log(id).is_prefix_of(run(s, history).log(id)),
    decreases history.len(),
{
    if history.len() > 0 {
        law_logs_only_grow_in(s, history.drop_last(), id);
        let before = run(s, history.drop_last());
        let (ctx, request) = history.last();
        if accepted(before, ctx, request) {
            law_records_stay_valid(before, ctx, request);
            law_logs_only_grow(before, ctx, request, id);
        }
    }
}

/// The lines that the accepted requests of a history add to the audit log of an invoice.
pub open spec fn lines_added_in(s: State, history: Seq<(ContextView, Request)>, id: u64) -> Seq<
    AuditEntry,
>
    decreases history.len(),
{
    if history.len() == 0 {
        Seq::empty()
    } else {
        let before = run(s, history.drop_last());
        let (ctx, request) = history.last();
        let earlier = lines_added_in(s, history.drop_last(), id);
        if accepted(before, ctx, request) {
            earlier + lines_added(before, ctx, request, id)
        } else {
            earlier
        }
    }
}

/// The audit log of an invoice is the whole of what was done to it since the contract was deployed,
/// oldest first.
pub proof fn law_log_is_complete(history: Seq<(ContextView, Request)>, id: u64)
    ensures
        run(State::initial(), history).log(id) == lines_added_in(State::initial(), history, id),
    decreases history.len(),
{
    if history.len() > 0 {
        law_log_is_complete(history.drop_last(), id);
        law_every_history_is_sound(history.drop_last());
        let before = run(State::initial(), history.drop_last());
        let (ctx, request) = history.last();
        if accepted(before, ctx, request) {
            law_log_says_what_happened(before, ctx, request, id);
        }
    }
}

/// Whatever is asked later, identifiers only grow, and an invoice that appears takes one that had
/// never been given out.
pub proof fn law_identifiers_never_reused_in(
    s: State,
    history: Seq<(ContextView, Request)>,
    id: u64,
)
    requires
        s.wf(),
    ensures
        run(s, history).wf(),
        s.counter <= run(s, history).counter,
        run(s, history).invoices.contains_key(id) && !s.invoices.contains_key(id) ==> s.counter < id
            <= run(s, history).counter,
    decreases history.len(),
{
    if history.len() > 0 {
        law_identifiers_never_reused_in(s, history.drop_last(), id);
        let before = run(s, history.drop_last());
        let (ctx, request) = history.last();
        if accepted(before, ctx, request) {
            law_records_stay_valid(before, ctx, request);
            law_identifiers_never_reused(before, ctx, request);
        }
    }
}

/// Every identifier that a newly deployed contract has given out is that of an invoice, and there
/// are no other invoices.
pub proof fn law_every_identifier_is_an_invoice(history: Seq<(ContextView, Request)>, id: u64)
    ensures
        run(State::initial(), history).invoices.contains_key(id) == run(
            State::initial(),
            history,
        ).known(id),
    decreases history.len(),
{
    if history.len() > 0 {
        law_every_identifier_is_an_invoice(history.drop_last(), id);
        law_every_history_is_sound(history.drop_last());
        let before = run(State::initial(), history.drop_last());
        let (ctx, request) = history.last();
        if accepted(before, ctx, request) {
            law_records_stay_valid(before, ctx, request);
        }
    }
}

/// A request saves a template under `key`.
pub open spec fn saves_under(request: Request, key: (Address, Seq<char>)) -> bool {
    match request {
        Request::SaveTemplate { creator, name, .. } => (creator, name) == key,
        _ => false,
    }
}

/// No accepted request of a history saves a template under `key`.
pub open spec fn not_saved_in(
    s: State,
    history: Seq<(ContextView, Request)>,
    key: (Address, Seq<char>),
) -> bool
    decreases history.len(),
{
    history.len() > 0 ==> {
        let (ctx, request) = history.last();
        &&& not_saved_in(s, history.drop_last(), key)
        &&& accepted(run(s, history.drop_last()), ctx, request) ==> !saves_under(request, key)
    }
}

/// Whatever is asked later, what is saved under a name, or that nothing is, stays as it is until
/// somebody saves under that name again.
pub proof fn law_templates_are_kept(
    s: State,
    history: Seq<(ContextView, Request)>,
    key: (Address, Seq<char>),
)
    requires
        s.wf(),
        not_saved_in(s, history, key),
    ensures
        run(s, history).wf(),
        run(s, history).templates.contains_key(key) == s.templates.contains_key(key),
        run(s, history).templates[key] == s.templates[key],
    decreases history.len(),
{
    if history.len() > 0 {
        law_templates_are_kept(s, history.drop_last(), key);
        let before = run(s, history.drop_last());
        let (ctx, request) = history.last();
        if accepted(before, ctx, request) {
            law_records_stay_valid(before, ctx, request);
        }
    }
}

/// A saved template is what an invoice made from it gets, whatever was asked in between, unless
/// another was saved under the same name: its recipients, amounts and token, the creator and the
/// deadline asked for, and nothing paid.
pub proof fn law_template_comes_back_later(
    s: State,
    ctx: ContextView,
    creator: Address,
    name: Seq<char>,
    recipients: Seq<Address>,
    amounts: Seq<i128>,
    token: Address,
    history: Seq<(ContextView, Request)>,
    later: ContextView,
    deadline: u64,
)
    requires
        s.wf(),
        accepted(s, ctx, Request::SaveTemplate { creator, name, recipients, amounts, token }),
        not_saved_in(
            after(s, ctx, Request::SaveTemplate { creator, name, recipients, amounts, token }),
            history,
            (creator, name),
        ),
    ensures
        ({
            let saved = after(
                s,
                ctx,
                Request::SaveTemplate { creator, name, recipients, amounts, token },
            );
            let now = run(saved, history);
            let request = Request::CreateFromTemplate { creator, name, deadline };
            &&& refusal(now, later, request) == if !later.authorized.contains(creator) {
                Some(SplitError::NotAuthorized)
            } else if deadline <= later.timestamp {
                Some(SplitError::DeadlineNotInFuture)
            } else if now.counter == u64::MAX || total(amounts) > i128::MAX {
                Some(SplitError::Overflow)
            } else {
                None
            }
            &&& after(now, later, request).invoices[now.next_id()] == fresh_invoice(
                creator,
                recipients,
                amounts,
                token,
                deadline,
            )
        }),
{
    let request = Request::SaveTemplate { creator, name, recipients, amounts, token };
    law_records_stay_valid(s, ctx, request);
    law_templates_are_kept(after(s, ctx, request), history, (creator, name));
}

/// What the accepted payments of a history bring from `who` toward an invoice.
pub open spec fn paid_in(
    s: State,
    history: Seq<(ContextView, Request)>,
    id: u64,
    who: Address,
) -> int
    decreases history.len(),
{
    if history.len() == 0 {
        0
    } else {
        let (ctx, request) = history.last();
        paid_in(s, history.drop_last(), id, who) + match request {
            Request::Pay { payer, id: target, amount, .. } => if target == id && payer == who
                && accepted(run(s, history.drop_last()), ctx, request) {
                amount as int
            } else {
                0
            },
            _ => 0,
        }
    }
}

/// What somebody has contributed toward an invoice is the sum of the payments that were taken from
/// them for it, over the whole history of the contract.
pub proof fn law_contributions_are_all_payments(
    history: Seq<(ContextView, Request)>,
    id: u64,
    who: Address,
)
    ensures
        ({
            let s = run(State::initial(), history);
            paid_in(State::initial(), history, id, who) == if s.invoices.contains_key(id) {
                paid_by(s.invoices[id].payments, who)
            } else {
                0
            }
        }),
    decreases history.len(),
{
    if history.len() > 0 {
        let earlier = history.drop_last();
        law_contributions_are_all_payments(earlier, id, who);
        law_every_history_is_sound(earlier);
        let before = run(State::initial(), earlier);
        let (ctx, request) = history.last();
        if accepted(before, ctx, request) {
            if before.invoices.contains_key(id) {
                law_terms_never_change(before, ctx, request, id);
            }
            if after(before, ctx, request).invoices.contains_key(id) {
                law_payments_come_from_pay(before, ctx, request, id);
            }
            match request {
                Request::Pay { payer, id: target, amount, tip } => {
                    if target == id {
                        law_payment_is_credited(before, ctx, payer, id, amount, tip, who);
                    }
                },
                _ => {},
            }
        }
    }
}

/// The calls of a history come in the order of their time, as the calls on a ledger do.
pub open spec fn time_moves_on(history: Seq<(ContextView, Request)>) -> bool {
    forall|i: int, j: int|
        0 <= i <= j < history.len() ==> (#[trigger] history[i]).0.timestamp <= (
        #[trigger] history[j]).0.timestamp
}

/// Time stamps in an audit log never decrease, and none is later than the last call.
pub proof fn law_logs_are_in_order(history: Seq<(ContextView, Request)>, id: u64)
    requires
        time_moves_on(history),
    ensures
        ({
            let log = run(State::initial(), history).log(id);
            &&& forall|i: int, j: int|
                0 <= i <= j < log.len() ==> (#[trigger] log[i]).timestamp <= (
                #[trigger] log[j]).timestamp
            &&& forall|i: int|
                0 <= i < log.len() ==> history.len() > 0 && (#[trigger] log[i]).timestamp
                    <= history.last().0.timestamp
        }),
    decreases history.len(),
{
    if history.len() > 0 {
        let earlier = history.drop_last();
        assert forall|i: int, j: int| 0 <= i <= j < earlier.len() implies (
        #[trigger] earlier[i]).0.timestamp <= (#[trigger] earlier[j]).0.timestamp by {
            assert(history[i].0.timestamp <= history[j].0.timestamp);
        }
        law_logs_are_in_order(earlier, id);
        law_every_history_is_sound(earlier);
        let before = run(State::initial(), earlier);
        let (ctx, request) = history.last();
        let n = before.log(id).len();
        if earlier.len() > 0 {
            assert(history[earlier.len() - 1].0.timestamp <= history[history.len()
                - 1].0.timestamp);
        }
        assert forall|i: int| 0 <= i < n implies (#[trigger] before.log(id)[i]).timestamp
            <= ctx.timestamp by {}
        if accepted(before, ctx, request) {
            law_logs_only_grow(before, ctx, request, id);
            let log = after(before, ctx, request).log(id);
            assert forall|i: int| 0 <= i < log.len() implies (#[trigger] log[i]).timestamp
                <= ctx.timestamp && (i < n ==> log[i] == before.log(id)[i]) by {}
        }
    }
}

/// Whatever is asked later, an invoice that is no longer pending stays as it is, and so does
/// what a completion proof attests of it.
pub proof fn law_closed_for_ever(s: State, history: Seq<(ContextView, Request)>, id: u64)
    requires
        s.wf(),
        s.invoices.contains_key(id),
        s.invoices[id].status != InvoiceStatus::Pending,
    ensures
        run(s, history).wf(),
        run(s, history).invoices.contains_key(id),
        run(s, history).invoices[id] == s.invoices[id],
        completion_refusal(run(s, history), id) == completion_refusal(s, id),
        completion_message(id, run(s, history).invoices[id]) == completion_message(
            id,
            s.invoices[id],
        ),
    decreases history.len(),
{
    if history.len() > 0 {
        law_closed_for_ever(s, history.drop_last(), id);
        let before = run(s, history.drop_last());
        let (ctx, request) = history.last();
        if accepted(before, ctx, request) {
            law_records_stay_valid(before, ctx, request);
            law_final_is_final(before, ctx, request, id);
        }
    }
}

/// The sum of valid amounts is above zero.
proof fn lemma_total_positive(amounts: Seq<i128>)
    requires
        all_positive(amounts),
        amounts.len() > 0,
    ensures
        total(amounts) > 0,
{
    lemma_total_prefix(amounts, amounts.len() - 1);
    assert(amounts.take(amounts.len() - 1) == amounts.drop_last());
}

/// A payout changes, of the invoices that exist, only the one paid out, and logs that once.
proof fn lemma_payout_frame(s: State, ctx: ContextView, target: u64, actor: Address, id: u64)
    requires
        s.invoices.contains_key(target),
        !successor_overflows(s, ctx.timestamp, target),
        id <= s.counter,
        target <= s.counter,
    ensures
        paid_out(s, ctx, target, actor).state.invoices.contains_key(id)
            == s.invoices.contains_key(id),
        id != target ==> paid_out(s, ctx, target, actor).state.invoices[id] == s.invoices[id],
        paid_out(s, ctx, target, actor).state.invoices[target] == (InvoiceView {
            status: InvoiceStatus::Released,
            ..s.invoices[target]
        }),
        paid_out(s, ctx, target, actor).state.log(id) == if id == target {
            s.log(id).push(entry(ctx, AuditAction::Release, actor))
        } else {
            s.log(id)
        },
{
}

} // verus!
