//! Working on a part of the records: a call needs only what it reads, and storing what it leaves
//! behind is as good as working on everything.
use vstd::prelude::*;

use crate::completion::completion_refusal;
use crate::context::ContextView;
use crate::laws::{
    law_identifiers_never_reused, law_logs_only_grow, law_records_stay_valid,
    law_terms_never_change, run,
};
use crate::model::{payment_recorded, State};
use crate::requests::{accepted, after, outcome, refusal, Request};
use crate::types::Address;

verus! {

/// The invoice that a request is about, if it is about one that exists.
pub open spec fn subject(request: Request) -> Option<u64> {
    match request {
        Request::Pay { id, .. } => Some(id),
        Request::Release { id } => Some(id),
        Request::Refund { id } => Some(id),
        Request::CancelInvoice { id, .. } => Some(id),
        Request::ExtendDeadline { id, .. } => Some(id),
        Request::CloneInvoice { source_id, .. } => Some(source_id),
        _ => None,
    }
}

/// The template that a request is made from, if it is made from one.
pub open spec fn template_used(request: Request) -> Option<(Address, Seq<char>)> {
    match request {
        Request::CreateFromTemplate { creator, name, .. } => Some((creator, name)),
        _ => None,
    }
}

/// Two states keep the same under `id`, and give out the same identifier next.
pub open spec fn agree_on(p: State, s: State, id: u64) -> bool {
    &&& p.counter == s.counter
    &&& p.invoices.contains_key(id) == s.invoices.contains_key(id)
    &&& s.invoices.contains_key(id) ==> p.invoices[id] == s.invoices[id]
    &&& p.logs.contains_key(id) == s.logs.contains_key(id)
    &&& s.logs.contains_key(id) ==> p.logs[id] == s.logs[id]
    &&& p.subscriptions.contains_key(id) == s.subscriptions.contains_key(id)
    &&& s.subscriptions.contains_key(id) ==> p.subscriptions[id] == s.subscriptions[id]
}

/// Two states keep the same template under `key`.
pub open spec fn agree_on_template(p: State, s: State, key: (Address, Seq<char>)) -> bool {
    &&& p.templates.contains_key(key) == s.templates.contains_key(key)
    &&& s.templates.contains_key(key) ==> p.templates[key] == s.templates[key]
}

/// The state `p` has what a request reads of `s`.
pub open spec fn suffices(p: State, s: State, request: Request) -> bool {
    &&& p.counter == s.counter
    &&& subject(request) matches Some(id) ==> agree_on(p, s, id)
    &&& template_used(request) matches Some(key) ==> agree_on_template(p, s, key)
}

/// The state `p` is a part of `s`.
pub open spec fn part_of(p: State, s: State) -> bool {
    &&& p.counter == s.counter
    &&& p.invoices.submap_of(s.invoices)
    &&& p.logs.submap_of(s.logs)
    &&& p.subscriptions.submap_of(s.subscriptions)
    &&& p.templates.submap_of(s.templates)
}

/// The identifier under which a request leaves an invoice: that of a new one, or else that of the
/// invoice it is about.
pub open spec fn result_id(s: State, request: Request) -> Option<u64> {
    match request {
        Request::SaveTemplate { .. } => None,
        Request::CloneInvoice { .. } => Some(s.next_id()),
        _ => match subject(request) {
            Some(id) => Some(id),
            None => Some(s.next_id()),
        },
    }
}

/// The state `s` once everything in `p` is stored over it, and the subscription of `id` is dropped
/// if `p` has none.
pub open spec fn stored_over(s: State, p: State, id: Option<u64>) -> State {
    let subscriptions = s.subscriptions.union_prefer_right(p.subscriptions);
    State {
        counter: p.counter,
        invoices: s.invoices.union_prefer_right(p.invoices),
        logs: s.logs.union_prefer_right(p.logs),
        subscriptions: match id {
            Some(id) => if p.subscriptions.contains_key(id) {
                subscriptions
            } else {
                subscriptions.remove(id)
            },
            None => subscriptions,
        },
        templates: s.templates.union_prefer_right(p.templates),
    }
}

/// A request is answered from what it reads: two states that agree on that refuse it for the same
/// reason, and ask for the same effects if they accept it. Then they still agree wherever they
/// did, and also on what is new.
pub proof fn law_answers_depend_on_what_is_read(
    p: State,
    s: State,
    ctx: ContextView,
    request: Request,
)
    requires
        p.wf(),
        s.wf(),
        suffices(p, s, request),
    ensures
        refusal(p, ctx, request) == refusal(s, ctx, request),
        accepted(s, ctx, request) ==> {
            &&& outcome(p, ctx, request).effects == outcome(s, ctx, request).effects
            &&& forall|id: u64| #[trigger]
                agree_on(p, s, id) ==> agree_on(after(p, ctx, request), after(s, ctx, request), id)
            &&& s.counter < u64::MAX ==> agree_on(
                after(p, ctx, request),
                after(s, ctx, request),
                s.next_id(),
            )
        },
{
    if accepted(s, ctx, request) {
        assert forall|id: u64| #[trigger] agree_on(p, s, id) implies agree_on(
            after(p, ctx, request),
            after(s, ctx, request),
            id,
        ) by {
            lemma_still_agree(p, s, ctx, request, id);
        }
        if s.counter < u64::MAX {
            assert(!s.known(s.next_id()) && !p.known(s.next_id()));
            assert(agree_on(p, s, s.next_id()));
        }
    }
}

/// A request touches nothing but the invoice that it is about: every other invoice that exists
/// stays as it is, with its audit log and its subscription.
pub proof fn law_other_records_untouched(s: State, ctx: ContextView, request: Request, id: u64)
    requires
        s.wf(),
        accepted(s, ctx, request),
        s.known(id),
        subject(request) != Some(id),
    ensures
        ({
            let next = after(s, ctx, request);
            &&& next.invoices.contains_key(id) == s.invoices.contains_key(id)
            &&& next.invoices[id] == s.invoices[id]
            &&& next.logs.contains_key(id) == s.logs.contains_key(id)
            &&& next.logs[id] == s.logs[id]
            &&& next.subscriptions.contains_key(id) == s.subscriptions.contains_key(id)
            &&& next.subscriptions[id] == s.subscriptions[id]
        }),
{
}

/// Working on a part of the records and storing the result over all of them is the same as working
/// on all of them, as long as the part has what the request reads.
pub proof fn law_part_acts_as_whole(p: State, s: State, ctx: ContextView, request: Request)
    requires
        s.wf(),
        part_of(p, s),
        suffices(p, s, request),
    ensures
        p.wf(),
        refusal(p, ctx, request) == refusal(s, ctx, request),
        accepted(s, ctx, request) ==> {
            &&& outcome(p, ctx, request).effects == outcome(s, ctx, request).effects
            &&& stored_over(s, after(p, ctx, request), result_id(s, request)) == after(
                s,
                ctx,
                request,
            )
        },
{
    lemma_part_valid(p, s);
    law_answers_depend_on_what_is_read(p, s, ctx, request);
    if accepted(s, ctx, request) {
        let stored = stored_over(s, after(p, ctx, request), result_id(s, request));
        let next = after(s, ctx, request);
        assert forall|id: u64| #[trigger] agree_on(stored, next, id) by {
            lemma_stored_at(p, s, ctx, request, id);
        }
        assert forall|id: u64| #[trigger]
            stored.invoices.contains_key(id) == next.invoices.contains_key(id) by {
            assert(agree_on(stored, next, id));
        }
        assert forall|id: u64| #[trigger]
            stored.invoices.contains_key(id) implies stored.invoices[id] == next.invoices[id] by {
            assert(agree_on(stored, next, id));
        }
        assert(stored.invoices == next.invoices);
        assert forall|id: u64| #[trigger]
            stored.logs.contains_key(id) == next.logs.contains_key(id) by {
            assert(agree_on(stored, next, id));
        }
        assert forall|id: u64| #[trigger]
            stored.logs.contains_key(id) implies stored.logs[id] == next.logs[id] by {
            assert(agree_on(stored, next, id));
        }
        assert(stored.logs == next.logs);
        assert forall|id: u64| #[trigger]
            stored.subscriptions.contains_key(id) == next.subscriptions.contains_key(id) by {
            assert(agree_on(stored, next, id));
        }
        assert forall|id: u64| #[trigger]
            stored.subscriptions.contains_key(id) implies stored.subscriptions[id]
            == next.subscriptions[id] by {
            assert(agree_on(stored, next, id));
        }
        assert(stored.subscriptions == next.subscriptions);
        lemma_stored_templates(p, s, ctx, request);
        assert(stored == next);
    }
}

/// What is read about an invoice is the same in two states that agree on it: the invoice, its audit
/// log, and whether a completion proof can be given.
pub proof fn law_reads_agree(p: State, s: State, id: u64)
    requires
        agree_on(p, s, id),
    ensures
        p.invoices.contains_key(id) == s.invoices.contains_key(id),
        s.invoices.contains_key(id) ==> p.invoices[id] == s.invoices[id],
        p.log(id) == s.log(id),
        completion_refusal(p, id) == completion_refusal(s, id),
{
}

/// The state that a list of requests leads to when each is answered from a part of the records, and
/// what is left of the part is stored.
pub open spec fn run_in_parts(
    s: State,
    history: Seq<(ContextView, Request)>,
    parts: Seq<State>,
) -> State
    decreases history.len(),
{
    if history.len() == 0 {
        s
    } else {
        let before = run_in_parts(s, history.drop_last(), parts);
        let p = parts[history.len() - 1];
        let (ctx, request) = history.last();
        if accepted(p, ctx, request) {
            stored_over(before, after(p, ctx, request), result_id(before, request))
        } else {
            before
        }
    }
}

/// Each request finds a part of what is stored by then, with all that it reads.
pub open spec fn parts_suffice(
    s: State,
    history: Seq<(ContextView, Request)>,
    parts: Seq<State>,
) -> bool
    decreases history.len(),
{
    history.len() > 0 ==> {
        let before = run_in_parts(s, history.drop_last(), parts);
        let p = parts[history.len() - 1];
        &&& parts_suffice(s, history.drop_last(), parts)
        &&& part_of(p, before)
        &&& suffices(p, before, history.last().1)
    }
}

/// Answering every request from a part of the records leads to the same state as answering them
/// from all of them, so whatever holds of every history holds of that as well.
pub proof fn law_history_in_parts(
    s: State,
    history: Seq<(ContextView, Request)>,
    parts: Seq<State>,
)
    requires
        s.wf(),
        parts_suffice(s, history, parts),
    ensures
        run_in_parts(s, history, parts) == run(s, history),
        run(s, history).wf(),
    decreases history.len(),
{
    if history.len() > 0 {
        law_history_in_parts(s, history.drop_last(), parts);
        let before = run(s, history.drop_last());
        let (ctx, request) = history.last();
        law_part_acts_as_whole(parts[history.len() - 1], before, ctx, request);
        if accepted(before, ctx, request) {
            law_records_stay_valid(before, ctx, request);
        }
    }
}

/// An accepted request keeps two states in agreement on `id`.
proof fn lemma_still_agree(p: State, s: State, ctx: ContextView, request: Request, id: u64)
    requires
        p.wf(),
        s.wf(),
        suffices(p, s, request),
        accepted(p, ctx, request),
        accepted(s, ctx, request),
        agree_on(p, s, id),
    ensures
        agree_on(after(p, ctx, request), after(s, ctx, request), id),
{
    match request {
        Request::Pay { payer, id: target, amount, tip } => {
            let recorded_p = payment_recorded(p, ctx, payer, target, amount);
            let recorded_s = payment_recorded(s, ctx, payer, target, amount);
            assert(agree_on(recorded_p, recorded_s, id));
            assert(agree_on(recorded_p, recorded_s, target));
        },
        _ => {},
    }
}

/// Storing the result of a request on a part gives, under each identifier, what the request on
/// the whole gives.
proof fn lemma_stored_at(p: State, s: State, ctx: ContextView, request: Request, id: u64)
    requires
        p.wf(),
        s.wf(),
        part_of(p, s),
        suffices(p, s, request),
        accepted(p, ctx, request),
        accepted(s, ctx, request),
    ensures
        agree_on(
            stored_over(s, after(p, ctx, request), result_id(s, request)),
            after(s, ctx, request),
            id,
        ),
{
    let next_p = after(p, ctx, request);
    let next_s = after(s, ctx, request);
    law_answers_depend_on_what_is_read(p, s, ctx, request);
    law_records_stay_valid(p, ctx, request);
    law_records_stay_valid(s, ctx, request);
    law_identifiers_never_reused(s, ctx, request);
    if subject(request) == Some(id) {
        assert(agree_on(p, s, id));
        assert(agree_on(next_p, next_s, id));
        law_terms_never_change(s, ctx, request, id);
        law_logs_only_grow(p, ctx, request, id);
    } else if s.known(id) {
        law_other_records_untouched(p, ctx, request, id);
        law_other_records_untouched(s, ctx, request, id);
    } else if s.counter < u64::MAX && id == s.next_id() {
        assert(agree_on(next_p, next_s, id));
        assert(!s.invoices.contains_key(id) && !s.logs.contains_key(id)
            && !s.subscriptions.contains_key(id));
    } else {
        assert(!next_s.known(id) && !next_p.known(id));
    }
}

/// Storing the result of a request on a part gives the templates that the request on the whole
/// gives.
proof fn lemma_stored_templates(p: State, s: State, ctx: ContextView, request: Request)
    requires
        part_of(p, s),
    ensures
        stored_over(s, after(p, ctx, request), result_id(s, request)).templates == after(
            s,
            ctx,
            request,
        ).templates,
{
    let stored = stored_over(s, after(p, ctx, request), result_id(s, request)).templates;
    let next = after(s, ctx, request).templates;
    assert forall|key: (Address, Seq<char>)| #[trigger]
        stored.contains_key(key) == next.contains_key(key) by {
        assert(p.templates.contains_key(key) ==> s.templates.contains_key(key));
    }
    assert forall|key: (Address, Seq<char>)| #[trigger] stored.contains_key(key) implies stored[key]
        == next[key] by {
        assert(p.templates.contains_key(key) ==> s.templates.contains_key(key));
    }
    assert(stored == next);
}

/// A part of valid records is valid.
proof fn lemma_part_valid(p: State, s: State)
    requires
        s.wf(),
        part_of(p, s),
    ensures
        p.wf(),
{
    assert forall|id: u64| #[trigger] p.invoices.contains_key(id) implies p.known(id)
        && p.invoices[id].wf() by {
        assert(s.invoices.contains_key(id));
    }
    assert forall|id: u64| #[trigger] p.logs.contains_key(id) implies p.known(id) by {
        assert(s.logs.contains_key(id));
    }
    assert forall|id: u64| #[trigger] p.subscriptions.contains_key(id) implies p.known(id)
        && p.subscriptions[id].wf() by {
        assert(s.subscriptions.contains_key(id));
    }
    assert forall|key: (Address, Seq<char>)| #[trigger]
        p.templates.contains_key(key) implies p.templates[key].wf() by {
        assert(s.templates.contains_key(key));
    }
}

} // verus!
