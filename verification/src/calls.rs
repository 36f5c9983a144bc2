//! The calls that change what the contract keeps.
use vstd::prelude::*;

use crate::context::{Context, Effect, Transfer};
use crate::contract::{invoice_total, SplitContract};
use crate::error::SplitError;
use crate::model::{
    cancel_refusal, cancelled, clone_invoice_refusal, cloned_invoice, create_from_template_refusal,
    create_invoice_refusal, create_subscription_refusal, created, created_from_template, credited,
    entry, extend_refusal, extended, pay_refusal, payment_recorded, payment_taken, refund_refusal,
    refunded, release_refusal, released, save_template_refusal, subscribed, template_saved,
    MAX_MONTHS, MONTH,
};
use crate::money::{are_positive, lemma_paid_by_prefix};
use crate::transfers::{give_tip, repay_payers};
use crate::types::{
    copied, Address, AuditAction, InvoiceStatus, InvoiceTemplate, Payment, SubscriptionParams,
    TemplateView,
};
use crate::validity::{lemma_payment_taken_valid, lemma_subscribed_valid, lemma_touched_valid};

verus! {

impl SplitContract {
    /// Creates a new invoice: `amounts[i]` is owed to `recipients[i]`, in units of `token`. After
    /// `deadline`, a Unix timestamp, no more payments are taken and refunds become available.
    ///
    /// The creator must have authorized the call. Returns the identifier of the invoice.
    pub fn create_invoice(
        &mut self,
        ctx: &mut Context,
        creator: Address,
        recipients: Vec<Address>,
        amounts: Vec<i128>,
        token: Address,
        deadline: u64,
    ) -> (res: Result<u64, SplitError>)
        requires
            old(self).wf(),
        ensures
            final(self).wf(),
            match create_invoice_refusal(
                old(self)@,
                old(ctx)@,
                creator,
                recipients@,
                amounts@,
                deadline,
            ) {
                Some(e) => {
                    &&& res == Err::<u64, SplitError>(e)
                    &&& *final(self) == *old(self)
                    &&& *final(ctx) == *old(ctx)
                },
                None => {
                    let outcome = created(
                        old(self)@,
                        creator,
                        recipients@,
                        amounts@,
                        token,
                        deadline,
                    );
                    &&& res == Ok::<u64, SplitError>(old(self)@.next_id())
                    &&& final(self)@ == outcome.state
                    &&& final(ctx)@ == old(ctx)@.asking(outcome.effects)
                },
            },
    {
        if !ctx.is_authorized(creator) {
            return Err(SplitError::NotAuthorized);
        }
        self._create_invoice(ctx, creator, recipients, amounts, token, deadline)
    }

    /// Starts a chain of invoices for recurring monthly billing, one for each of `months` months,
    /// which are at most twelve.
    ///
    /// The first invoice is created at once. Each of the others is created when the one before
    /// it is paid out. Each is due thirty days after its creation.
    ///
    /// The creator must have authorized the call. Returns the identifier of the first invoice.
    pub fn create_subscription(
        &mut self,
        ctx: &mut Context,
        creator: Address,
        recipients: Vec<Address>,
        amounts: Vec<i128>,
        token: Address,
        months: u32,
    ) -> (res: Result<u64, SplitError>)
        requires
            old(self).wf(),
        ensures
            final(self).wf(),
            match create_subscription_refusal(
                old(self)@,
                old(ctx)@,
                creator,
                recipients@,
                amounts@,
                months,
            ) {
                Some(e) => {
                    &&& res == Err::<u64, SplitError>(e)
                    &&& *final(self) == *old(self)
                    &&& *final(ctx) == *old(ctx)
                },
                None => {
                    let outcome = subscribed(
                        old(self)@,
                        old(ctx)@,
                        creator,
                        recipients@,
                        amounts@,
                        token,
                        months,
                    );
                    &&& res == Ok::<u64, SplitError>(old(self)@.next_id())
                    &&& final(self)@ == outcome.state
                    &&& final(ctx)@ == old(ctx)@.asking(outcome.effects)
                },
            },
    {
        if !ctx.is_authorized(creator) {
            return Err(SplitError::NotAuthorized);
        }
        if recipients.len() != amounts.len() {
            return Err(SplitError::LengthMismatch);
        }
        if recipients.len() == 0 {
            return Err(SplitError::NoRecipients);
        }
        if months == 0 || months > MAX_MONTHS {
            return Err(SplitError::MonthsOutOfRange);
        }
        if !are_positive(&amounts) {
            return Err(SplitError::AmountNotPositive);
        }
        if ctx.timestamp > u64::MAX - MONTH {
            return Err(SplitError::Overflow);
        }
        let deadline: u64 = ctx.timestamp + MONTH;
        let later_recipients = copied(&recipients);
        let later_amounts = copied(&amounts);
        let first = self._create_invoice(ctx, creator, recipients, amounts, token, deadline);
        if let Ok(id) = first {
            proof {
                lemma_subscribed_valid(
                    old(self)@,
                    old(ctx)@,
                    creator,
                    recipients@,
                    amounts@,
                    token,
                    months,
                );
            }
            if months > 1 {
                let params = SubscriptionParams {
                    creator,
                    recipients: later_recipients,
                    amounts: later_amounts,
                    token,
                    remaining: months - 1,
                };
                self.subscriptions.insert(id, params);
                assert(self@.subscriptions == old(self)@.subscriptions.insert(id, params@));
            }
        }
        first
    }

    /// Pays toward an invoice.
    ///
    /// Moves `amount` of the invoice's token from `payer`, who must have authorized the call, to
    /// the contract, and `tip` in equal shares to the recipients. An invoice that is fully funded
    /// by the payment is paid out at once.
    pub fn pay(
        &mut self,
        ctx: &mut Context,
        payer: Address,
        invoice_id: u64,
        amount: i128,
        tip: i128,
    ) -> (res: Result<(), SplitError>)
        requires
            old(self).wf(),
        ensures
            final(self).wf(),
            match pay_refusal(old(self)@, old(ctx)@, payer, invoice_id, amount, tip) {
                Some(e) => {
                    &&& res == Err::<(), SplitError>(e)
                    &&& *final(self) == *old(self)
                    &&& *final(ctx) == *old(ctx)
                },
                None => {
                    let outcome = payment_taken(
                        old(self)@,
                        old(ctx)@,
                        payer,
                        invoice_id,
                        amount,
                        tip,
                    );
                    &&& res == Ok::<(), SplitError>(())
                    &&& final(self)@ == outcome.state
                    &&& final(ctx)@ == old(ctx)@.asking(outcome.effects)
                },
            },
    {
        if !ctx.is_authorized(payer) {
            return Err(SplitError::NotAuthorized);
        }
        let (creator, filled) = match self.load_invoice(invoice_id) {
            Err(e) => {
                return Err(e);
            },
            Ok(invoice) => {
                if invoice.status != InvoiceStatus::Pending {
                    return Err(SplitError::NotPending);
                }
                if ctx.timestamp > invoice.deadline {
                    return Err(SplitError::DeadlinePassed);
                }
                if amount <= 0 {
                    return Err(SplitError::PaymentNotPositive);
                }
                if tip < 0 {
                    return Err(SplitError::NegativeTip);
                }
                proof {
                    lemma_paid_by_prefix(invoice.payments@, payer, 0);
                }
                let remaining: i128 = invoice_total(invoice) - invoice.funded;
                if amount > remaining {
                    return Err(SplitError::ExceedsRemaining);
                }
                (invoice.creator, amount == remaining)
            },
        };
        if filled && self.successor_overflow(ctx.timestamp, invoice_id) {
            return Err(SplitError::Overflow);
        }
        proof {
            lemma_payment_taken_valid(self@, ctx@, payer, invoice_id, amount, tip);
        }
        let mut invoice = self.invoices.remove(&invoice_id).unwrap();
        ctx.ask(
            Effect::Transfer(
                Transfer { token: invoice.token, from: payer, to: ctx.contract, amount },
            ),
        );
        give_tip(ctx, &invoice, payer, tip);
        invoice.payments.push(Payment { payer, amount });
        invoice.funded = invoice.funded + amount;
        assert(invoice@ == credited(old(self)@.invoices[invoice_id], payer, amount));
        self.save_invoice(invoice_id, invoice);
        self.append_audit_entry(ctx, invoice_id, AuditAction::Pay, payer);
        ctx.ask(Effect::PaymentReceived { id: invoice_id, payer, amount });
        assert(self@ == payment_recorded(old(self)@, old(ctx)@, payer, invoice_id, amount));
        if filled {
            self._release(ctx, invoice_id, creator);
        }
        Ok(())
    }

    /// Routes the funds of a fully funded invoice to its recipients. Anyone may call this.
    pub fn release(&mut self, ctx: &mut Context, invoice_id: u64) -> (res: Result<(), SplitError>)
        requires
            old(self).wf(),
        ensures
            final(self).wf(),
            match release_refusal(old(self)@, old(ctx)@, invoice_id) {
                Some(e) => {
                    &&& res == Err::<(), SplitError>(e)
                    &&& *final(self) == *old(self)
                    &&& *final(ctx) == *old(ctx)
                },
                None => {
                    let outcome = released(old(self)@, old(ctx)@, invoice_id);
                    &&& res == Ok::<(), SplitError>(())
                    &&& final(self)@ == outcome.state
                    &&& final(ctx)@ == old(ctx)@.asking(outcome.effects)
                },
            },
    {
        match self.load_invoice(invoice_id) {
            Err(e) => {
                return Err(e);
            },
            Ok(invoice) => {
                if invoice.status != InvoiceStatus::Pending {
                    return Err(SplitError::NotPending);
                }
                if invoice.funded < invoice_total(invoice) {
                    return Err(SplitError::NotFullyFunded);
                }
            },
        }
        if self.successor_overflow(ctx.timestamp, invoice_id) {
            return Err(SplitError::Overflow);
        }
        let caller = ctx.contract;
        self._release(ctx, invoice_id, caller);
        Ok(())
    }

    /// Gives every payer back what they paid toward an invoice that missed its deadline without
    /// being fully funded. Anyone may call this.
    pub fn refund(&mut self, ctx: &mut Context, invoice_id: u64) -> (res: Result<(), SplitError>)
        requires
            old(self).wf(),
        ensures
            final(self).wf(),
            match refund_refusal(old(self)@, old(ctx)@, invoice_id) {
                Some(e) => {
                    &&& res == Err::<(), SplitError>(e)
                    &&& *final(self) == *old(self)
                    &&& *final(ctx) == *old(ctx)
                },
                None => {
                    let outcome = refunded(old(self)@, old(ctx)@, invoice_id);
                    &&& res == Ok::<(), SplitError>(())
                    &&& final(self)@ == outcome.state
                    &&& final(ctx)@ == old(ctx)@.asking(outcome.effects)
                },
            },
    {
        match self.load_invoice(invoice_id) {
            Err(e) => {
                return Err(e);
            },
            Ok(invoice) => {
                if invoice.status != InvoiceStatus::Pending {
                    return Err(SplitError::NotPending);
                }
                if ctx.timestamp <= invoice.deadline {
                    return Err(SplitError::DeadlineNotPassed);
                }
                if invoice.funded >= invoice_total(invoice) {
                    return Err(SplitError::FullyFunded);
                }
            },
        }
        let mut invoice = self.invoices.remove(&invoice_id).unwrap();
        repay_payers(ctx, &invoice);
        invoice.status = InvoiceStatus::Refunded;
        proof {
            lemma_touched_valid(
                old(self)@,
                invoice_id,
                invoice@,
                entry(old(ctx)@, AuditAction::Refund, old(ctx)@.contract),
            );
        }
        self.save_invoice(invoice_id, invoice);
        let actor = ctx.contract;
        self.append_audit_entry(ctx, invoice_id, AuditAction::Refund, actor);
        assert(self@ == old(self)@.holding(invoice_id, invoice@).logging(
            invoice_id,
            entry(old(ctx)@, AuditAction::Refund, old(ctx)@.contract),
        ));
        ctx.ask(Effect::InvoiceRefunded { id: invoice_id });
        Ok(())
    }

    /// Withdraws an invoice toward which nobody has paid yet. Only its creator, who must have
    /// authorized the call, can do this.
    pub fn cancel_invoice(
        &mut self,
        ctx: &Context,
        caller: Address,
        invoice_id: u64,
    ) -> (res: Result<(), SplitError>)
        requires
            old(self).wf(),
        ensures
            final(self).wf(),
            match cancel_refusal(old(self)@, ctx@, caller, invoice_id) {
                Some(e) => {
                    &&& res == Err::<(), SplitError>(e)
                    &&& *final(self) == *old(self)
                },
                None => {
                    let outcome = cancelled(old(self)@, ctx@, caller, invoice_id);
                    &&& res == Ok::<(), SplitError>(())
                    &&& final(self)@ == outcome.state
                },
            },
    {
        if !ctx.is_authorized(caller) {
            return Err(SplitError::NotAuthorized);
        }
        match self.load_invoice(invoice_id) {
            Err(e) => {
                return Err(e);
            },
            Ok(invoice) => {
                if invoice.status != InvoiceStatus::Pending {
                    return Err(SplitError::NotPending);
                }
                if invoice.creator != caller {
                    return Err(SplitError::OnlyCreatorCancels);
                }
                if invoice.payments.len() > 0 {
                    return Err(SplitError::PaymentsStarted);
                }
            },
        }
        let mut invoice = self.invoices.remove(&invoice_id).unwrap();
        invoice.status = InvoiceStatus::Refunded;
        proof {
            lemma_touched_valid(
                old(self)@,
                invoice_id,
                invoice@,
                entry(ctx@, AuditAction::Cancel, caller),
            );
        }
        self.save_invoice(invoice_id, invoice);
        self.append_audit_entry(ctx, invoice_id, AuditAction::Cancel, caller);
        assert(self@ == old(self)@.holding(invoice_id, invoice@).logging(
            invoice_id,
            entry(ctx@, AuditAction::Cancel, caller),
        ));
        Ok(())
    }

    /// Moves the deadline of an invoice. Only its creator, who must have authorized the call, can
    /// do this, and the new deadline must be in the future.
    pub fn extend_deadline(
        &mut self,
        ctx: &Context,
        caller: Address,
        invoice_id: u64,
        new_deadline: u64,
    ) -> (res: Result<(), SplitError>)
        requires
            old(self).wf(),
        ensures
            final(self).wf(),
            match extend_refusal(old(self)@, ctx@, caller, invoice_id, new_deadline) {
                Some(e) => {
                    &&& res == Err::<(), SplitError>(e)
                    &&& *final(self) == *old(self)
                },
                None => {
                    let outcome = extended(old(self)@, ctx@, caller, invoice_id, new_deadline);
                    &&& res == Ok::<(), SplitError>(())
                    &&& final(self)@ == outcome.state
                },
            },
    {
        if !ctx.is_authorized(caller) {
            return Err(SplitError::NotAuthorized);
        }
        match self.load_invoice(invoice_id) {
            Err(e) => {
                return Err(e);
            },
            Ok(invoice) => {
                if invoice.status != InvoiceStatus::Pending {
                    return Err(SplitError::NotPending);
                }
                if invoice.creator != caller {
                    return Err(SplitError::OnlyCreatorExtends);
                }
                if new_deadline <= ctx.timestamp {
                    return Err(SplitError::NewDeadlineNotInFuture);
                }
            },
        }
        let mut invoice = self.invoices.remove(&invoice_id).unwrap();
        invoice.deadline = new_deadline;
        proof {
            lemma_touched_valid(
                old(self)@,
                invoice_id,
                invoice@,
                entry(ctx@, AuditAction::Extend, caller),
            );
        }
        self.save_invoice(invoice_id, invoice);
        self.append_audit_entry(ctx, invoice_id, AuditAction::Extend, caller);
        assert(self@ == old(self)@.holding(invoice_id, invoice@).logging(
            invoice_id,
            entry(ctx@, AuditAction::Extend, caller),
        ));
        Ok(())
    }

    /// Saves a reusable template under the creator and `name`, in place of any that was saved
    /// there before. The creator must have authorized the call.
    pub fn save_template(
        &mut self,
        ctx: &Context,
        creator: Address,
        name: String,
        recipients: Vec<Address>,
        amounts: Vec<i128>,
        token: Address,
    ) -> (res: Result<(), SplitError>)
        requires
            old(self).wf(),
        ensures
            final(self).wf(),
            match save_template_refusal(ctx@, creator, recipients@, amounts@) {
                Some(e) => {
                    &&& res == Err::<(), SplitError>(e)
                    &&& *final(self) == *old(self)
                },
                None => {
                    let template = TemplateView {
                        recipients: recipients@,
                        amounts: amounts@,
                        token,
                    };
                    let outcome = template_saved(old(self)@, creator, name@, template);
                    &&& res == Ok::<(), SplitError>(())
                    &&& final(self)@ == outcome.state
                },
            },
    {
        if !ctx.is_authorized(creator) {
            return Err(SplitError::NotAuthorized);
        }
        if recipients.len() != amounts.len() {
            return Err(SplitError::LengthMismatch);
        }
        if recipients.len() == 0 {
            return Err(SplitError::NoRecipients);
        }
        if !are_positive(&amounts) {
            return Err(SplitError::AmountNotPositive);
        }
        let template = InvoiceTemplate { recipients, amounts, token };
        self.put_template(creator, name, template);
        Ok(())
    }

    /// Creates an invoice from the template that the creator saved under `name`. The creator must
    /// have authorized the call. Returns the identifier of the invoice.
    pub fn create_from_template(
        &mut self,
        ctx: &mut Context,
        creator: Address,
        name: &String,
        deadline: u64,
    ) -> (res: Result<u64, SplitError>)
        requires
            old(self).wf(),
        ensures
            final(self).wf(),
            match create_from_template_refusal(old(self)@, old(ctx)@, creator, name@, deadline) {
                Some(e) => {
                    &&& res == Err::<u64, SplitError>(e)
                    &&& *final(self) == *old(self)
                    &&& *final(ctx) == *old(ctx)
                },
                None => {
                    let outcome = created_from_template(old(self)@, creator, name@, deadline);
                    &&& res == Ok::<u64, SplitError>(old(self)@.next_id())
                    &&& final(self)@ == outcome.state
                    &&& final(ctx)@ == old(ctx)@.asking(outcome.effects)
                },
            },
    {
        if !ctx.is_authorized(creator) {
            return Err(SplitError::NotAuthorized);
        }
        match self.template_index(creator, name) {
            None => Err(SplitError::TemplateNotFound),
            Some(i) => {
                let recipients = copied(&self.templates[i].template.recipients);
                let amounts = copied(&self.templates[i].template.amounts);
                let token = self.templates[i].template.token;
                self._create_invoice(ctx, creator, recipients, amounts, token, deadline)
            },
        }
    }

    /// Creates an invoice of the caller's with the recipients, amounts and token of another. The
    /// caller must have authorized the call. Returns the identifier of the new invoice.
    pub fn clone_invoice(
        &mut self,
        ctx: &mut Context,
        caller: Address,
        source_id: u64,
        new_deadline: u64,
    ) -> (res: Result<u64, SplitError>)
        requires
            old(self).wf(),
        ensures
            final(self).wf(),
            match clone_invoice_refusal(old(self)@, old(ctx)@, caller, source_id, new_deadline) {
                Some(e) => {
                    &&& res == Err::<u64, SplitError>(e)
                    &&& *final(self) == *old(self)
                    &&& *final(ctx) == *old(ctx)
                },
                None => {
                    let outcome = cloned_invoice(old(self)@, caller, source_id, new_deadline);
                    &&& res == Ok::<u64, SplitError>(old(self)@.next_id())
                    &&& final(self)@ == outcome.state
                    &&& final(ctx)@ == old(ctx)@.asking(outcome.effects)
                },
            },
    {
        if !ctx.is_authorized(caller) {
            return Err(SplitError::NotAuthorized);
        }
        let (recipients, amounts, token) = match self.load_invoice(source_id) {
            Err(e) => {
                return Err(e);
            },
            Ok(source) => (copied(&source.recipients), copied(&source.amounts), source.token),
        };
        self._create_invoice(ctx, caller, recipients, amounts, token, new_deadline)
    }
}

} // verus!
