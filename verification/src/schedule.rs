//! Subscriptions: which invoices are still to come, and when they are created.
use vstd::prelude::*;

use crate::context::ContextView;
use crate::laws::{
    law_every_history_is_sound, law_final_is_final, law_how_invoices_change,
    law_records_stay_valid, law_terms_never_change, run,
};
use crate::model::{fresh_invoice, month_ahead, State};
use crate::requests::{accepted, after, pays_out, Request};
use crate::types::{Address, InvoiceStatus, InvoiceView, SubscriptionView};

verus! {

/// How many invoices are still to be created after this one in its subscription.
pub open spec fn months_to_come(s: State, id: u64) -> nat {
    if s.subscriptions.contains_key(id) {
        s.subscriptions[id].remaining as nat
    } else {
        0
    }
}

/// A subscription starts with one invoice and all the other months to come.
pub proof fn law_subscription_starts(
    s: State,
    ctx: ContextView,
    creator: Address,
    recipients: Seq<Address>,
    amounts: Seq<i128>,
    token: Address,
    months: u32,
)
    requires
        s.wf(),
        accepted(
            s,
            ctx,
            Request::CreateSubscription { creator, recipients, amounts, token, months },
        ),
    ensures
        ({
            let next = after(
                s,
                ctx,
                Request::CreateSubscription { creator, recipients, amounts, token, months },
            );
            &&& next.invoices[s.next_id()] == fresh_invoice(
                creator,
                recipients,
                amounts,
                token,
                month_ahead(ctx.timestamp),
            )
            &&& 1 + months_to_come(next, s.next_id()) == months
            &&& months > 1 ==> ({
                let params = next.subscriptions[s.next_id()];
                &&& params.creator == creator
                &&& params.recipients == recipients
                &&& params.amounts == amounts
                &&& params.token == token
            })
        }),
{
}

/// Each payout of a subscription's invoice creates the next one, on the same terms and due a
/// month later, with one month fewer to come, until none is left. Other invoices create none.
pub proof fn law_subscription_continues(s: State, ctx: ContextView, request: Request, id: u64)
    requires
        s.wf(),
        accepted(s, ctx, request),
        pays_out(s, request, id),
    ensures
        ({
            let next = after(s, ctx, request);
            if months_to_come(s, id) == 0 {
                next.counter == s.counter && months_to_come(next, id) == 0
            } else {
                let params = s.subscriptions[id];
                &&& next.counter == s.counter + 1
                &&& next.invoices[next.counter] == fresh_invoice(
                    params.creator,
                    params.recipients,
                    params.amounts,
                    params.token,
                    month_ahead(ctx.timestamp),
                )
                &&& months_to_come(next, id) == 0
                &&& months_to_come(next, next.counter) == months_to_come(s, id) - 1
                &&& months_to_come(next, next.counter) > 0 ==> next.subscriptions[next.counter]
                    == (SubscriptionView { remaining: (params.remaining - 1) as u32, ..params })
            }
        }),
{
}

/// What is scheduled after an invoice stays scheduled until the invoice is paid out.
pub proof fn law_schedule_is_kept(s: State, ctx: ContextView, request: Request, id: u64)
    requires
        s.wf(),
        accepted(s, ctx, request),
        s.known(id),
        !pays_out(s, request, id),
    ensures
        after(s, ctx, request).subscriptions.contains_key(id) == s.subscriptions.contains_key(id),
        after(s, ctx, request).subscriptions[id] == s.subscriptions[id],
{
}

/// How many invoices are still to be created after the first `n` in their subscriptions.
pub open spec fn scheduled_upto(s: State, n: nat) -> nat
    decreases n,
{
    if n == 0 {
        0
    } else {
        scheduled_upto(s, (n - 1) as nat) + months_to_come(s, n as u64)
    }
}

/// How many invoices are still to be created in all subscriptions together.
pub open spec fn scheduled(s: State) -> nat {
    scheduled_upto(s, s.counter as nat)
}

/// How many invoices a request asks for, now or later.
pub open spec fn invoices_asked(request: Request) -> nat {
    match request {
        Request::CreateInvoice { .. } => 1,
        Request::CreateFromTemplate { .. } => 1,
        Request::CloneInvoice { .. } => 1,
        Request::CreateSubscription { months, .. } => months as nat,
        _ => 0,
    }
}

/// How many invoices the accepted requests of a history ask for.
pub open spec fn invoices_asked_in(s: State, history: Seq<(ContextView, Request)>) -> nat
    decreases history.len(),
{
    if history.len() == 0 {
        0
    } else {
        let before = run(s, history.drop_last());
        let (ctx, request) = history.last();
        invoices_asked_in(s, history.drop_last()) + if accepted(before, ctx, request) {
            invoices_asked(request)
        } else {
            0
        }
    }
}

/// The invoices created and those still to come are together as many as were asked for: every
/// accepted request adds to them exactly what it asks for.
pub proof fn law_invoices_come_as_asked(s: State, ctx: ContextView, request: Request)
    requires
        s.wf(),
        accepted(s, ctx, request),
    ensures
        after(s, ctx, request).counter + scheduled(after(s, ctx, request)) == s.counter + scheduled(
            s,
        ) + invoices_asked(request),
{
    let next = after(s, ctx, request);
    match request {
        Request::Pay { id, .. } => {
            lemma_payout_schedule(s, ctx, request, id);
        },
        Request::Release { id } => {
            lemma_payout_schedule(s, ctx, request, id);
        },
        _ => {
            assert forall|k: u64| 1 <= k <= s.counter implies #[trigger] months_to_come(s, k)
                == months_to_come(next, k) by {
                law_schedule_is_kept(s, ctx, request, k);
            }
            lemma_scheduled_same(s, next, s.counter as nat);
        },
    }
}

/// A subscription of so many months makes that many invoices, and any other creation one: in
/// every history, the invoices created and those still to come are together exactly as many as
/// the accepted requests asked for.
pub proof fn law_all_invoices_accounted_for(history: Seq<(ContextView, Request)>)
    ensures
        ({
            let s = run(State::initial(), history);
            s.counter + scheduled(s) == invoices_asked_in(State::initial(), history)
        }),
    decreases history.len(),
{
    if history.len() > 0 {
        law_all_invoices_accounted_for(history.drop_last());
        law_every_history_is_sound(history.drop_last());
        let before = run(State::initial(), history.drop_last());
        let (ctx, request) = history.last();
        if accepted(before, ctx, request) {
            law_invoices_come_as_asked(before, ctx, request);
        }
    }
}

/// An invoice is on these terms.
pub open spec fn on_terms(
    invoice: InvoiceView,
    creator: Address,
    recipients: Seq<Address>,
    amounts: Seq<i128>,
    token: Address,
) -> bool {
    &&& invoice.creator == creator
    &&& invoice.recipients == recipients
    &&& invoice.amounts == amounts
    &&& invoice.token == token
}

/// The invoices of the subscription that starts with `first`, as far as a history brings them: each
/// payout of the last one adds the next, as long as there is one to come.
pub open spec fn chain(s: State, history: Seq<(ContextView, Request)>, first: u64) -> Seq<u64>
    decreases history.len(),
{
    if history.len() == 0 {
        seq![first]
    } else {
        let ids = chain(s, history.drop_last(), first);
        let before = run(s, history.drop_last());
        let (ctx, request) = history.last();
        if accepted(before, ctx, request) && pays_out(before, request, ids.last())
            && months_to_come(before, ids.last()) > 0 {
            ids.push(after(before, ctx, request).counter)
        } else {
            ids
        }
    }
}

/// The invoices `ids` are the first of a subscription of so many months on these terms: all but
/// the last are paid out with nothing more to come, and after the last come all the other months.
/// If the last is paid out too, it was the last month.
pub open spec fn is_chain(
    s: State,
    ids: Seq<u64>,
    creator: Address,
    recipients: Seq<Address>,
    amounts: Seq<i128>,
    token: Address,
    months: u32,
) -> bool {
    &&& 1 <= ids.len() <= months
    &&& forall|i: int, j: int| 0 <= i < j < ids.len() ==> ids[i] < ids[j]
    &&& forall|k: int|
        0 <= k < ids.len() ==> {
            &&& s.invoices.contains_key(#[trigger] ids[k])
            &&& on_terms(s.invoices[ids[k]], creator, recipients, amounts, token)
        }
    &&& forall|k: int|
        0 <= k < ids.len() - 1 ==> {
            &&& s.invoices[#[trigger] ids[k]].status == InvoiceStatus::Released
            &&& months_to_come(s, ids[k]) == 0
        }
    &&& months_to_come(s, ids.last()) == months - ids.len()
    &&& months_to_come(s, ids.last()) > 0 ==> {
        let params = s.subscriptions[ids.last()];
        &&& params.creator == creator
        &&& params.recipients == recipients
        &&& params.amounts == amounts
        &&& params.token == token
    }
    &&& s.invoices[ids.last()].status == InvoiceStatus::Released ==> ids.len() == months
}

/// A subscription makes its months one after the other, whatever else is asked in between: after
/// any history, the invoices of its chain are all on the terms of the subscription, the last of
/// `k` has all but `k` months to come, and a chain whose last invoice is paid out has run all its
/// months.
pub proof fn law_subscription_through_history(
    s: State,
    ctx: ContextView,
    creator: Address,
    recipients: Seq<Address>,
    amounts: Seq<i128>,
    token: Address,
    months: u32,
    history: Seq<(ContextView, Request)>,
)
    requires
        s.wf(),
        accepted(
            s,
            ctx,
            Request::CreateSubscription { creator, recipients, amounts, token, months },
        ),
    ensures
        ({
            let start = after(
                s,
                ctx,
                Request::CreateSubscription { creator, recipients, amounts, token, months },
            );
            is_chain(
                run(start, history),
                chain(start, history, s.next_id()),
                creator,
                recipients,
                amounts,
                token,
                months,
            )
        }),
{
    let request = Request::CreateSubscription { creator, recipients, amounts, token, months };
    let start = after(s, ctx, request);
    law_records_stay_valid(s, ctx, request);
    law_subscription_starts(s, ctx, creator, recipients, amounts, token, months);
    lemma_chain(start, history, s.next_id(), creator, recipients, amounts, token, months);
}

/// What starts as a chain goes on as one.
proof fn lemma_chain(
    s: State,
    history: Seq<(ContextView, Request)>,
    first: u64,
    creator: Address,
    recipients: Seq<Address>,
    amounts: Seq<i128>,
    token: Address,
    months: u32,
)
    requires
        s.wf(),
        is_chain(s, seq![first], creator, recipients, amounts, token, months),
    ensures
        run(s, history).wf(),
        is_chain(
            run(s, history),
            chain(s, history, first),
            creator,
            recipients,
            amounts,
            token,
            months,
        ),
    decreases history.len(),
{
    if history.len() > 0 {
        let earlier = history.drop_last();
        lemma_chain(s, earlier, first, creator, recipients, amounts, token, months);
        let before = run(s, earlier);
        let (ctx, request) = history.last();
        if accepted(before, ctx, request) {
            let ids = chain(s, earlier, first);
            law_records_stay_valid(before, ctx, request);
            lemma_chain_step(
                before,
                ctx,
                request,
                ids,
                creator,
                recipients,
                amounts,
                token,
                months,
            );
        }
    }
}

/// One request leaves a chain as it is, or adds its next invoice.
proof fn lemma_chain_step(
    s: State,
    ctx: ContextView,
    request: Request,
    ids: Seq<u64>,
    creator: Address,
    recipients: Seq<Address>,
    amounts: Seq<i128>,
    token: Address,
    months: u32,
)
    requires
        s.wf(),
        accepted(s, ctx, request),
        is_chain(s, ids, creator, recipients, amounts, token, months),
    ensures
        is_chain(
            after(s, ctx, request),
            if pays_out(s, request, ids.last()) && months_to_come(s, ids.last()) > 0 {
                ids.push(after(s, ctx, request).counter)
            } else {
                ids
            },
            creator,
            recipients,
            amounts,
            token,
            months,
        ),
{
    let next = after(s, ctx, request);
    let last = ids.last();
    assert(last == ids[ids.len() - 1]);
    assert forall|k: int| 0 <= k < ids.len() implies {
        &&& next.invoices.contains_key(#[trigger] ids[k])
        &&& on_terms(next.invoices[ids[k]], creator, recipients, amounts, token)
        &&& s.known(ids[k])
    } by {
        law_terms_never_change(s, ctx, request, ids[k]);
    }
    assert forall|k: int| 0 <= k < ids.len() - 1 implies {
        &&& next.invoices[#[trigger] ids[k]].status == InvoiceStatus::Released
        &&& months_to_come(next, ids[k]) == 0
    } by {
        law_final_is_final(s, ctx, request, ids[k]);
        assert(!pays_out(s, request, ids[k]));
        law_schedule_is_kept(s, ctx, request, ids[k]);
    }
    law_how_invoices_change(s, ctx, request, last);
    if pays_out(s, request, last) {
        law_subscription_continues(s, ctx, request, last);
        if months_to_come(s, last) > 0 {
            let longer = ids.push(next.counter);
            assert(next.invoices[last].status == InvoiceStatus::Released);
            assert forall|k: int| 0 <= k < longer.len() implies {
                &&& next.invoices.contains_key(#[trigger] longer[k])
                &&& on_terms(next.invoices[longer[k]], creator, recipients, amounts, token)
            } by {
                if k < ids.len() {
                    assert(longer[k] == ids[k]);
                }
            }
            assert forall|k: int| 0 <= k < longer.len() - 1 implies {
                &&& next.invoices[#[trigger] longer[k]].status == InvoiceStatus::Released
                &&& months_to_come(next, longer[k]) == 0
            } by {
                assert(longer[k] == ids[k]);
            }
            assert forall|i: int, j: int| 0 <= i < j < longer.len() implies longer[i]
                < longer[j] by {
                assert(s.known(ids[i]));
            }
        }
    } else {
        law_schedule_is_kept(s, ctx, request, last);
    }
}

/// The schedule of the first `n` invoices, where it is the same for each.
proof fn lemma_scheduled_same(s: State, t: State, n: nat)
    requires
        n <= u64::MAX,
        forall|id: u64| 1 <= id <= n ==> #[trigger] months_to_come(s, id) == months_to_come(t, id),
    ensures
        scheduled_upto(s, n) == scheduled_upto(t, n),
    decreases n,
{
    if n > 0 {
        lemma_scheduled_same(s, t, (n - 1) as nat);
        assert(months_to_come(s, n as u64) == months_to_come(t, n as u64));
    }
}

/// The schedule of the first `n` invoices, where it is the same for each but one.
proof fn lemma_scheduled_but_one(s: State, t: State, id: u64, n: nat)
    requires
        1 <= id <= n <= u64::MAX,
        forall|k: u64|
            1 <= k <= n && k != id ==> #[trigger] months_to_come(s, k) == months_to_come(t, k),
    ensures
        scheduled_upto(t, n) - months_to_come(t, id) == scheduled_upto(s, n) - months_to_come(
            s,
            id,
        ),
    decreases n,
{
    if id == n {
        lemma_scheduled_same(s, t, (n - 1) as nat);
    } else {
        lemma_scheduled_but_one(s, t, id, (n - 1) as nat);
        assert(months_to_come(s, n as u64) == months_to_come(t, n as u64));
    }
}

/// A payment or a release moves at most one invoice from the schedule to the books.
proof fn lemma_payout_schedule(s: State, ctx: ContextView, request: Request, id: u64)
    requires
        s.wf(),
        accepted(s, ctx, request),
        match request {
            Request::Pay { id: target, .. } => target == id,
            Request::Release { id: target } => target == id,
            _ => false,
        },
    ensures
        after(s, ctx, request).counter + scheduled(after(s, ctx, request)) == s.counter + scheduled(
            s,
        ),
{
    let next = after(s, ctx, request);
    assert(s.invoices.contains_key(id));
    if pays_out(s, request, id) {
        law_subscription_continues(s, ctx, request, id);
        assert forall|k: u64| 1 <= k <= s.counter && k != id implies #[trigger] months_to_come(s, k)
            == months_to_come(next, k) by {
            law_schedule_is_kept(s, ctx, request, k);
        }
        lemma_scheduled_but_one(s, next, id, s.counter as nat);
    } else {
        assert forall|k: u64| 1 <= k <= s.counter implies #[trigger] months_to_come(s, k)
            == months_to_come(next, k) by {
            law_schedule_is_kept(s, ctx, request, k);
        }
        lemma_scheduled_same(s, next, s.counter as nat);
    }
}

} // verus!
