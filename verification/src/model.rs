//! The contract as a state machine: for each request, when it is refused and what it leads to.
use vstd::prelude::*;

use crate::context::{ContextView, EffectView, Transfer};
use crate::error::SplitError;
use crate::money::{all_paid_positive, all_positive, paid, paid_by, payers, total};
use crate::types::{
    Address, AuditAction, AuditEntry, InvoiceStatus, InvoiceView, Payment, SubscriptionView,
    TemplateView,
};

verus! {

/// The length of a billing month, in seconds.
pub const MONTH: u64 = 30 * 24 * 60 * 60;

/// The largest number of months that a subscription runs.
pub const MAX_MONTHS: u32 = 12;

/// Everything that the contract remembers.
#[verifier::ext_equal]
pub struct State {
    /// The identifier given out last.
    pub counter: u64,
    pub invoices: Map<u64, InvoiceView>,
    /// The audit log of each invoice that has one.
    pub logs: Map<u64, Seq<AuditEntry>>,
    /// For each invoice that has a successor in its subscription, how to make the successor.
    pub subscriptions: Map<u64, SubscriptionView>,
    /// The saved templates, by creator and name.
    pub templates: Map<(Address, Seq<char>), TemplateView>,
}

/// What an accepted request leads to: the next state, and the effects asked of the ledger.
#[verifier::ext_equal]
pub struct Outcome {
    pub state: State,
    pub effects: Seq<EffectView>,
}

// ---------------------------------------------------------------------------
// Validity
// ---------------------------------------------------------------------------
/// At least one recipient, and exactly one positive amount for each.
pub open spec fn shares_valid(recipients: Seq<Address>, amounts: Seq<i128>) -> bool {
    &&& recipients.len() == amounts.len()
    &&& recipients.len() > 0
    &&& all_positive(amounts)
}

impl InvoiceView {
    /// What the invoice asks for in all.
    pub open spec fn total(self) -> int {
        total(self.amounts)
    }

    /// The books of the invoice balance: it asks for positive amounts, holds exactly what was
    /// paid, never more than it asks for, and was paid out only when it held all of it.
    pub open spec fn wf(self) -> bool {
        &&& shares_valid(self.recipients, self.amounts)
        &&& self.total() <= i128::MAX
        &&& all_paid_positive(self.payments)
        &&& self.funded == paid(self.payments)
        &&& self.funded <= self.total()
        &&& self.status == InvoiceStatus::Released ==> self.funded == self.total()
    }
}

impl SubscriptionView {
    /// The parameters make a valid invoice, and the chain is no longer than a subscription runs.
    pub open spec fn wf(self) -> bool {
        &&& shares_valid(self.recipients, self.amounts)
        &&& total(self.amounts) <= i128::MAX
        &&& 1 <= self.remaining < MAX_MONTHS
    }
}

impl TemplateView {
    /// The template makes valid shares. Whether their sum is in range is decided when it is used.
    pub open spec fn wf(self) -> bool {
        shares_valid(self.recipients, self.amounts)
    }
}

impl State {
    /// A contract that has just been deployed.
    pub open spec fn initial() -> State {
        State {
            counter: 0,
            invoices: Map::empty(),
            logs: Map::empty(),
            subscriptions: Map::empty(),
            templates: Map::empty(),
        }
    }

    /// An identifier that has been given out.
    pub open spec fn known(self, id: u64) -> bool {
        1 <= id <= self.counter
    }

    /// Nothing is kept under an identifier that was never given out, and every record is valid.
    pub open spec fn wf(self) -> bool {
        &&& forall|id: u64| #[trigger]
            self.invoices.contains_key(id) ==> self.known(id) && self.invoices[id].wf()
        &&& forall|id: u64| #[trigger] self.logs.contains_key(id) ==> self.known(id)
        &&& forall|id: u64| #[trigger]
            self.subscriptions.contains_key(id) ==> self.known(id) && self.subscriptions[id].wf()
        &&& forall|key: (Address, Seq<char>)| #[trigger]
            self.templates.contains_key(key) ==> self.templates[key].wf()
    }

    /// The audit log of an invoice, oldest entry first.
    pub open spec fn log(self, id: u64) -> Seq<AuditEntry> {
        if self.logs.contains_key(id) {
            self.logs[id]
        } else {
            Seq::empty()
        }
    }

    /// This state with one more line in an audit log.
    pub open spec fn logging(self, id: u64, entry: AuditEntry) -> State {
        State { logs: self.logs.insert(id, self.log(id).push(entry)), ..self }
    }

    /// This state with an invoice replaced.
    pub open spec fn holding(self, id: u64, invoice: InvoiceView) -> State {
        State { invoices: self.invoices.insert(id, invoice), ..self }
    }

    /// The identifier given out next.
    pub open spec fn next_id(self) -> u64 {
        (self.counter + 1) as u64
    }
}

/// The audit entry for what `actor` does now.
pub open spec fn entry(ctx: ContextView, action: AuditAction, actor: Address) -> AuditEntry {
    AuditEntry { action, actor, timestamp: ctx.timestamp }
}

// ---------------------------------------------------------------------------
// Creating invoices
// ---------------------------------------------------------------------------
/// Why an invoice with these terms cannot be created, if so.
pub open spec fn terms_refusal(
    s: State,
    now: u64,
    recipients: Seq<Address>,
    amounts: Seq<i128>,
    deadline: u64,
) -> Option<SplitError> {
    if recipients.len() != amounts.len() {
        Some(SplitError::LengthMismatch)
    } else if recipients.len() == 0 {
        Some(SplitError::NoRecipients)
    } else if deadline <= now {
        Some(SplitError::DeadlineNotInFuture)
    } else if !all_positive(amounts) {
        Some(SplitError::AmountNotPositive)
    } else if s.counter == u64::MAX || total(amounts) > i128::MAX {
        Some(SplitError::Overflow)
    } else {
        None
    }
}

/// An invoice toward which nothing has been paid.
pub open spec fn fresh_invoice(
    creator: Address,
    recipients: Seq<Address>,
    amounts: Seq<i128>,
    token: Address,
    deadline: u64,
) -> InvoiceView {
    InvoiceView {
        creator,
        recipients,
        amounts,
        token,
        deadline,
        funded: 0,
        status: InvoiceStatus::Pending,
        payments: Seq::empty(),
    }
}

/// A fresh invoice is kept under the next identifier, and announced.
pub open spec fn created(
    s: State,
    creator: Address,
    recipients: Seq<Address>,
    amounts: Seq<i128>,
    token: Address,
    deadline: u64,
) -> Outcome {
    let invoice = fresh_invoice(creator, recipients, amounts, token, deadline);
    Outcome {
        state: State { counter: s.next_id(), ..s.holding(s.next_id(), invoice) },
        effects: seq![
            EffectView::InvoiceCreated { id: s.next_id(), creator, total: total(amounts) },
        ],
    }
}

/// Why an invoice cannot be created by `creator`, if so.
pub open spec fn create_invoice_refusal(
    s: State,
    ctx: ContextView,
    creator: Address,
    recipients: Seq<Address>,
    amounts: Seq<i128>,
    deadline: u64,
) -> Option<SplitError> {
    if !ctx.authorized.contains(creator) {
        Some(SplitError::NotAuthorized)
    } else {
        terms_refusal(s, ctx.timestamp, recipients, amounts, deadline)
    }
}

/// Why a subscription cannot be started, if so.
pub open spec fn create_subscription_refusal(
    s: State,
    ctx: ContextView,
    creator: Address,
    recipients: Seq<Address>,
    amounts: Seq<i128>,
    months: u32,
) -> Option<SplitError> {
    if !ctx.authorized.contains(creator) {
        Some(SplitError::NotAuthorized)
    } else if recipients.len() != amounts.len() {
        Some(SplitError::LengthMismatch)
    } else if recipients.len() == 0 {
        Some(SplitError::NoRecipients)
    } else if !(1 <= months <= MAX_MONTHS) {
        Some(SplitError::MonthsOutOfRange)
    } else if !all_positive(amounts) {
        Some(SplitError::AmountNotPositive)
    } else if ctx.timestamp + MONTH > u64::MAX {
        Some(SplitError::Overflow)
    } else {
        terms_refusal(s, ctx.timestamp, recipients, amounts, month_ahead(ctx.timestamp))
    }
}

/// One billing month from `now`.
pub open spec fn month_ahead(now: u64) -> u64 {
    (now + MONTH) as u64
}

/// The first invoice of the chain is created, due in a month; the others are scheduled.
pub open spec fn subscribed(
    s: State,
    ctx: ContextView,
    creator: Address,
    recipients: Seq<Address>,
    amounts: Seq<i128>,
    token: Address,
    months: u32,
) -> Outcome {
    let first = created(s, creator, recipients, amounts, token, month_ahead(ctx.timestamp));
    if months > 1 {
        let params = SubscriptionView {
            creator,
            recipients,
            amounts,
            token,
            remaining: (months - 1) as u32,
        };
        Outcome {
            state: State {
                subscriptions: s.subscriptions.insert(s.next_id(), params),
                ..first.state
            },
            ..first
        }
    } else {
        first
    }
}

/// Why a template cannot be saved, if so.
pub open spec fn save_template_refusal(
    ctx: ContextView,
    creator: Address,
    recipients: Seq<Address>,
    amounts: Seq<i128>,
) -> Option<SplitError> {
    if !ctx.authorized.contains(creator) {
        Some(SplitError::NotAuthorized)
    } else if recipients.len() != amounts.len() {
        Some(SplitError::LengthMismatch)
    } else if recipients.len() == 0 {
        Some(SplitError::NoRecipients)
    } else if !all_positive(amounts) {
        Some(SplitError::AmountNotPositive)
    } else {
        None
    }
}

/// The template is kept under its creator and name, in place of any earlier one.
pub open spec fn template_saved(
    s: State,
    creator: Address,
    name: Seq<char>,
    template: TemplateView,
) -> Outcome {
    Outcome {
        state: State { templates: s.templates.insert((creator, name), template), ..s },
        effects: Seq::empty(),
    }
}

/// Why an invoice cannot be created from a template, if so.
pub open spec fn create_from_template_refusal(
    s: State,
    ctx: ContextView,
    creator: Address,
    name: Seq<char>,
    deadline: u64,
) -> Option<SplitError> {
    let template = s.templates[(creator, name)];
    if !ctx.authorized.contains(creator) {
        Some(SplitError::NotAuthorized)
    } else if !s.templates.contains_key((creator, name)) {
        Some(SplitError::TemplateNotFound)
    } else {
        terms_refusal(s, ctx.timestamp, template.recipients, template.amounts, deadline)
    }
}

/// A fresh invoice with the recipients, amounts and token of the template.
pub open spec fn created_from_template(
    s: State,
    creator: Address,
    name: Seq<char>,
    deadline: u64,
) -> Outcome {
    let template = s.templates[(creator, name)];
    created(s, creator, template.recipients, template.amounts, template.token, deadline)
}

/// Why an invoice cannot be cloned, if so.
pub open spec fn clone_invoice_refusal(
    s: State,
    ctx: ContextView,
    caller: Address,
    source_id: u64,
    new_deadline: u64,
) -> Option<SplitError> {
    let source = s.invoices[source_id];
    if !ctx.authorized.contains(caller) {
        Some(SplitError::NotAuthorized)
    } else if !s.invoices.contains_key(source_id) {
        Some(SplitError::InvoiceNotFound)
    } else {
        terms_refusal(s, ctx.timestamp, source.recipients, source.amounts, new_deadline)
    }
}

/// A fresh invoice of the caller's with the recipients, amounts and token of the source.
pub open spec fn cloned_invoice(
    s: State,
    caller: Address,
    source_id: u64,
    new_deadline: u64,
) -> Outcome {
    let source = s.invoices[source_id];
    created(s, caller, source.recipients, source.amounts, source.token, new_deadline)
}

// ---------------------------------------------------------------------------
// Paying out
// ---------------------------------------------------------------------------
/// One transfer to each recipient, of the amount owed to them.
pub open spec fn payouts(contract: Address, invoice: InvoiceView) -> Seq<EffectView> {
    Seq::new(
        invoice.recipients.len(),
        |i: int|
            EffectView::Transfer(
                Transfer {
                    token: invoice.token,
                    from: contract,
                    to: invoice.recipients[i],
                    amount: invoice.amounts[i],
                },
            ),
    )
}

/// Paying out this invoice now would need an identifier or a deadline out of range for the next
/// invoice of its subscription.
pub open spec fn successor_overflows(s: State, now: u64, id: u64) -> bool {
    s.subscriptions.contains_key(id) && (now + MONTH > u64::MAX || s.counter == u64::MAX)
}

/// The invoice is paid out and closed, and the next one of its subscription, if any, is created.
pub open spec fn paid_out(s: State, ctx: ContextView, id: u64, actor: Address) -> Outcome {
    let invoice = s.invoices[id];
    let closed = s.holding(
        id,
        InvoiceView { status: InvoiceStatus::Released, ..invoice },
    ).logging(id, entry(ctx, AuditAction::Release, actor));
    let effects = payouts(ctx.contract, invoice) + seq![
        EffectView::InvoiceReleased { id, recipients: invoice.recipients },
    ];
    if s.subscriptions.contains_key(id) {
        let params = s.subscriptions[id];
        let next = created(
            closed,
            params.creator,
            params.recipients,
            params.amounts,
            params.token,
            month_ahead(ctx.timestamp),
        );
        Outcome {
            state: State {
                subscriptions: if params.remaining > 1 {
                    s.subscriptions.remove(id).insert(
                        s.next_id(),
                        SubscriptionView { remaining: (params.remaining - 1) as u32, ..params },
                    )
                } else {
                    s.subscriptions.remove(id)
                },
                ..next.state
            },
            effects: effects + next.effects,
        }
    } else {
        Outcome { state: closed, effects }
    }
}

/// Why an invoice cannot be released, if so.
pub open spec fn release_refusal(s: State, ctx: ContextView, id: u64) -> Option<SplitError> {
    let invoice = s.invoices[id];
    if !s.invoices.contains_key(id) {
        Some(SplitError::InvoiceNotFound)
    } else if invoice.status != InvoiceStatus::Pending {
        Some(SplitError::NotPending)
    } else if invoice.funded < invoice.total() {
        Some(SplitError::NotFullyFunded)
    } else if successor_overflows(s, ctx.timestamp, id) {
        Some(SplitError::Overflow)
    } else {
        None
    }
}

/// The invoice is paid out, in the contract's own name.
pub open spec fn released(s: State, ctx: ContextView, id: u64) -> Outcome {
    paid_out(s, ctx, id, ctx.contract)
}

// ---------------------------------------------------------------------------
// Paying in
// ---------------------------------------------------------------------------
/// Why a payment is not taken, if so.
pub open spec fn pay_refusal(
    s: State,
    ctx: ContextView,
    payer: Address,
    id: u64,
    amount: i128,
    tip: i128,
) -> Option<SplitError> {
    let invoice = s.invoices[id];
    if !ctx.authorized.contains(payer) {
        Some(SplitError::NotAuthorized)
    } else if !s.invoices.contains_key(id) {
        Some(SplitError::InvoiceNotFound)
    } else if invoice.status != InvoiceStatus::Pending {
        Some(SplitError::NotPending)
    } else if ctx.timestamp > invoice.deadline {
        Some(SplitError::DeadlinePassed)
    } else if amount <= 0 {
        Some(SplitError::PaymentNotPositive)
    } else if tip < 0 {
        Some(SplitError::NegativeTip)
    } else if amount > invoice.total() - invoice.funded {
        Some(SplitError::ExceedsRemaining)
    } else if invoice.funded + amount == invoice.total() && successor_overflows(
        s,
        ctx.timestamp,
        id,
    ) {
        Some(SplitError::Overflow)
    } else {
        None
    }
}

/// The share of a tip that each of `n` recipients gets.
pub open spec fn tip_share(tip: int, n: nat) -> int {
    tip / (n as int)
}

/// The tip in equal shares, straight from the payer to the recipients. What does not divide
/// evenly stays with the payer.
pub open spec fn tips(invoice: InvoiceView, payer: Address, tip: int) -> Seq<EffectView> {
    let share = tip_share(tip, invoice.recipients.len());
    if share > 0 {
        Seq::new(
            invoice.recipients.len(),
            |i: int|
                EffectView::Transfer(
                    Transfer {
                        token: invoice.token,
                        from: payer,
                        to: invoice.recipients[i],
                        amount: share as i128,
                    },
                ),
        )
    } else {
        Seq::empty()
    }
}

/// The invoice with one more payment.
pub open spec fn credited(invoice: InvoiceView, payer: Address, amount: i128) -> InvoiceView {
    InvoiceView {
        payments: invoice.payments.push(Payment { payer, amount }),
        funded: invoice.funded + amount,
        ..invoice
    }
}

/// The payment is on the books and in the audit log, and nothing else has happened yet.
pub open spec fn payment_recorded(
    s: State,
    ctx: ContextView,
    payer: Address,
    id: u64,
    amount: i128,
) -> State {
    s.holding(id, credited(s.invoices[id], payer, amount)).logging(
        id,
        entry(ctx, AuditAction::Pay, payer),
    )
}

/// The payment is taken and recorded; an invoice that is fully funded by it is paid out at once,
/// in its creator's name.
pub open spec fn payment_taken(
    s: State,
    ctx: ContextView,
    payer: Address,
    id: u64,
    amount: i128,
    tip: i128,
) -> Outcome {
    let invoice = s.invoices[id];
    let recorded = payment_recorded(s, ctx, payer, id, amount);
    let deposit = EffectView::Transfer(
        Transfer { token: invoice.token, from: payer, to: ctx.contract, amount },
    );
    let effects = seq![deposit] + tips(invoice, payer, tip as int) + seq![
        EffectView::PaymentReceived { id, payer, amount: amount as int },
    ];
    if invoice.funded + amount == invoice.total() {
        let rest = paid_out(recorded, ctx, id, invoice.creator);
        Outcome { state: rest.state, effects: effects + rest.effects }
    } else {
        Outcome { state: recorded, effects }
    }
}

// ---------------------------------------------------------------------------
// Giving back, withdrawing, extending
// ---------------------------------------------------------------------------
/// One transfer to each payer, of all that they paid toward the invoice.
pub open spec fn refunds(contract: Address, invoice: InvoiceView) -> Seq<EffectView> {
    let who = payers(invoice.payments);
    Seq::new(
        who.len(),
        |i: int|
            EffectView::Transfer(
                Transfer {
                    token: invoice.token,
                    from: contract,
                    to: who[i],
                    amount: paid_by(invoice.payments, who[i]) as i128,
                },
            ),
    )
}

/// Why an invoice cannot be refunded, if so.
pub open spec fn refund_refusal(s: State, ctx: ContextView, id: u64) -> Option<SplitError> {
    let invoice = s.invoices[id];
    if !s.invoices.contains_key(id) {
        Some(SplitError::InvoiceNotFound)
    } else if invoice.status != InvoiceStatus::Pending {
        Some(SplitError::NotPending)
    } else if ctx.timestamp <= invoice.deadline {
        Some(SplitError::DeadlineNotPassed)
    } else if invoice.funded >= invoice.total() {
        Some(SplitError::FullyFunded)
    } else {
        None
    }
}

/// Every payer gets back what they paid, and the invoice is closed.
pub open spec fn refunded(s: State, ctx: ContextView, id: u64) -> Outcome {
    let invoice = s.invoices[id];
    Outcome {
        state: s.holding(
            id,
            InvoiceView { status: InvoiceStatus::Refunded, ..invoice },
        ).logging(id, entry(ctx, AuditAction::Refund, ctx.contract)),
        effects: refunds(ctx.contract, invoice) + seq![EffectView::InvoiceRefunded { id }],
    }
}

/// Why an invoice cannot be withdrawn, if so.
pub open spec fn cancel_refusal(
    s: State,
    ctx: ContextView,
    caller: Address,
    id: u64,
) -> Option<SplitError> {
    let invoice = s.invoices[id];
    if !ctx.authorized.contains(caller) {
        Some(SplitError::NotAuthorized)
    } else if !s.invoices.contains_key(id) {
        Some(SplitError::InvoiceNotFound)
    } else if invoice.status != InvoiceStatus::Pending {
        Some(SplitError::NotPending)
    } else if invoice.creator != caller {
        Some(SplitError::OnlyCreatorCancels)
    } else if invoice.payments.len() > 0 {
        Some(SplitError::PaymentsStarted)
    } else {
        None
    }
}

/// The invoice, toward which nobody has paid, is closed.
pub open spec fn cancelled(s: State, ctx: ContextView, caller: Address, id: u64) -> Outcome {
    Outcome {
        state: s.holding(
            id,
            InvoiceView { status: InvoiceStatus::Refunded, ..s.invoices[id] },
        ).logging(id, entry(ctx, AuditAction::Cancel, caller)),
        effects: Seq::empty(),
    }
}

/// Why a deadline cannot be moved, if so.
pub open spec fn extend_refusal(
    s: State,
    ctx: ContextView,
    caller: Address,
    id: u64,
    new_deadline: u64,
) -> Option<SplitError> {
    let invoice = s.invoices[id];
    if !ctx.authorized.contains(caller) {
        Some(SplitError::NotAuthorized)
    } else if !s.invoices.contains_key(id) {
        Some(SplitError::InvoiceNotFound)
    } else if invoice.status != InvoiceStatus::Pending {
        Some(SplitError::NotPending)
    } else if invoice.creator != caller {
        Some(SplitError::OnlyCreatorExtends)
    } else if new_deadline <= ctx.timestamp {
        Some(SplitError::NewDeadlineNotInFuture)
    } else {
        None
    }
}

/// The invoice takes payments until the new deadline.
pub open spec fn extended(
    s: State,
    ctx: ContextView,
    caller: Address,
    id: u64,
    new_deadline: u64,
) -> Outcome {
    Outcome {
        state: s.holding(
            id,
            InvoiceView { deadline: new_deadline, ..s.invoices[id] },
        ).logging(id, entry(ctx, AuditAction::Extend, caller)),
        effects: Seq::empty(),
    }
}

} // verus!
