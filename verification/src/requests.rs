//! Every request that changes the contract, under one name.
use vstd::prelude::*;

use crate::context::ContextView;
use crate::error::SplitError;
use crate::model::{
    cancel_refusal, cancelled, clone_invoice_refusal, cloned_invoice, create_from_template_refusal,
    create_invoice_refusal, create_subscription_refusal, created, created_from_template,
    extend_refusal, extended, pay_refusal, payment_taken, refund_refusal, refunded, release_refusal,
    released, save_template_refusal, subscribed, template_saved, Outcome, State,
};
use crate::types::{Address, TemplateView};

verus! {

/// A call that may change what the contract keeps, with its arguments.
pub enum Request {
    CreateInvoice {
        creator: Address,
        recipients: Seq<Address>,
        amounts: Seq<i128>,
        token: Address,
        deadline: u64,
    },
    CreateSubscription {
        creator: Address,
        recipients: Seq<Address>,
        amounts: Seq<i128>,
        token: Address,
        months: u32,
    },
    CreateFromTemplate { creator: Address, name: Seq<char>, deadline: u64 },
    CloneInvoice { caller: Address, source_id: u64, new_deadline: u64 },
    SaveTemplate {
        creator: Address,
        name: Seq<char>,
        recipients: Seq<Address>,
        amounts: Seq<i128>,
        token: Address,
    },
    Pay { payer: Address, id: u64, amount: i128, tip: i128 },
    Release { id: u64 },
    Refund { id: u64 },
    CancelInvoice { caller: Address, id: u64 },
    ExtendDeadline { caller: Address, id: u64, new_deadline: u64 },
}

/// Why a request is refused, if it is.
pub open spec fn refusal(s: State, ctx: ContextView, request: Request) -> Option<SplitError> {
    match request {
        Request::CreateInvoice { creator, recipients, amounts, token, deadline } => {
            create_invoice_refusal(s, ctx, creator, recipients, amounts, deadline)
        },
        Request::CreateSubscription { creator, recipients, amounts, token, months } => {
            create_subscription_refusal(s, ctx, creator, recipients, amounts, months)
        },
        Request::CreateFromTemplate { creator, name, deadline } => {
            create_from_template_refusal(s, ctx, creator, name, deadline)
        },
        Request::CloneInvoice { caller, source_id, new_deadline } => {
            clone_invoice_refusal(s, ctx, caller, source_id, new_deadline)
        },
        Request::SaveTemplate { creator, name, recipients, amounts, token } => {
            save_template_refusal(ctx, creator, recipients, amounts)
        },
        Request::Pay { payer, id, amount, tip } => pay_refusal(s, ctx, payer, id, amount, tip),
        Request::Release { id } => release_refusal(s, ctx, id),
        Request::Refund { id } => refund_refusal(s, ctx, id),
        Request::CancelInvoice { caller, id } => cancel_refusal(s, ctx, caller, id),
        Request::ExtendDeadline { caller, id, new_deadline } => {
            extend_refusal(s, ctx, caller, id, new_deadline)
        },
    }
}

/// What a request leads to when it is accepted.
pub open spec fn outcome(s: State, ctx: ContextView, request: Request) -> Outcome {
    match request {
        Request::CreateInvoice { creator, recipients, amounts, token, deadline } => {
            created(s, creator, recipients, amounts, token, deadline)
        },
        Request::CreateSubscription { creator, recipients, amounts, token, months } => {
            subscribed(s, ctx, creator, recipients, amounts, token, months)
        },
        Request::CreateFromTemplate { creator, name, deadline } => {
            created_from_template(s, creator, name, deadline)
        },
        Request::CloneInvoice { caller, source_id, new_deadline } => {
            cloned_invoice(s, caller, source_id, new_deadline)
        },
        Request::SaveTemplate { creator, name, recipients, amounts, token } => {
            template_saved(s, creator, name, TemplateView { recipients, amounts, token })
        },
        Request::Pay { payer, id, amount, tip } => payment_taken(s, ctx, payer, id, amount, tip),
        Request::Release { id } => released(s, ctx, id),
        Request::Refund { id } => refunded(s, ctx, id),
        Request::CancelInvoice { caller, id } => cancelled(s, ctx, caller, id),
        Request::ExtendDeadline { caller, id, new_deadline } => {
            extended(s, ctx, caller, id, new_deadline)
        },
    }
}

/// A request is accepted.
pub open spec fn accepted(s: State, ctx: ContextView, request: Request) -> bool {
    refusal(s, ctx, request) is None
}

/// The state after an accepted request.
pub open spec fn after(s: State, ctx: ContextView, request: Request) -> State {
    outcome(s, ctx, request).state
}

/// The request pays out this invoice.
pub open spec fn pays_out(s: State, request: Request, id: u64) -> bool {
    match request {
        Request::Release { id: target } => target == id,
        Request::Pay { payer, id: target, amount, tip } => target == id && s.invoices[id].funded
            + amount == s.invoices[id].total(),
        _ => false,
    }
}

} // verus!
