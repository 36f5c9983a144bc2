//! Rebuilding the contract from records that were stored earlier, with each record checked.
use std::collections::BTreeMap;

use vstd::prelude::*;

use crate::contract::SplitContract;
use crate::model::{shares_valid, State, MAX_MONTHS};
use crate::money::{are_paid_positive, are_positive, checked_paid, checked_total};
use crate::types::{
    Address, AuditEntry, Invoice, InvoiceStatus, InvoiceTemplate, SubscriptionParams,
};

verus! {

/// Whether there is at least one recipient, and exactly one positive amount for each.
fn shares_are_valid(recipients: &Vec<Address>, amounts: &Vec<i128>) -> (yes: bool)
    ensures
        yes == shares_valid(recipients@, amounts@),
{
    recipients.len() == amounts.len() && recipients.len() > 0 && are_positive(amounts)
}

/// Whether the books of an invoice balance.
fn invoice_is_valid(invoice: &Invoice) -> (yes: bool)
    ensures
        yes == invoice@.wf(),
{
    if !shares_are_valid(&invoice.recipients, &invoice.amounts) {
        return false;
    }
    if !are_paid_positive(&invoice.payments) {
        return false;
    }
    match (checked_total(&invoice.amounts), checked_paid(&invoice.payments)) {
        (Some(sum), Some(paid_in)) => {
            invoice.funded == paid_in && invoice.funded <= sum && (invoice.status
                != InvoiceStatus::Released || invoice.funded == sum)
        },
        _ => false,
    }
}

impl SplitContract {
    /// A contract that has just been deployed.
    pub fn new() -> (contract: SplitContract)
        ensures
            contract.wf(),
            contract@ == State::initial(),
    {
        SplitContract::with_counter(0)
    }

    /// A contract that has given out `counter` identifiers, with none of its records.
    pub fn with_counter(counter: u64) -> (contract: SplitContract)
        ensures
            contract.wf(),
            contract@ == (State { counter, ..State::initial() }),
    {
        let contract = SplitContract {
            counter,
            invoices: BTreeMap::new(),
            logs: BTreeMap::new(),
            subscriptions: BTreeMap::new(),
            templates: Vec::new(),
        };
        assert(contract@ == State { counter, ..State::initial() });
        contract
    }

    /// Puts back a stored invoice, if its identifier was given out and its books balance.
    pub fn restore_invoice(&mut self, id: u64, invoice: Invoice) -> (accepted: bool)
        requires
            old(self).wf(),
        ensures
            final(self).wf(),
            accepted == (old(self)@.known(id) && invoice@.wf()),
            accepted ==> final(self)@ == old(self)@.holding(id, invoice@),
            !accepted ==> *final(self) == *old(self),
    {
        if id == 0 || id > self.counter || !invoice_is_valid(&invoice) {
            return false;
        }
        self.save_invoice(id, invoice);
        true
    }

    /// Puts back a stored audit log, if its identifier was given out.
    pub fn restore_log(&mut self, id: u64, log: Vec<AuditEntry>) -> (accepted: bool)
        requires
            old(self).wf(),
        ensures
            final(self).wf(),
            accepted == old(self)@.known(id),
            accepted ==> final(self)@ == (State {
                logs: old(self)@.logs.insert(id, log@),
                ..old(self)@
            }),
            !accepted ==> *final(self) == *old(self),
    {
        if id == 0 || id > self.counter {
            return false;
        }
        self.logs.insert(id, log);
        assert(self@.logs == old(self)@.logs.insert(id, log@));
        true
    }

    /// Puts back the stored parameters of a subscription, if they make a valid invoice and the
    /// identifier was given out.
    pub fn restore_subscription(&mut self, id: u64, params: SubscriptionParams) -> (accepted: bool)
        requires
            old(self).wf(),
        ensures
            final(self).wf(),
            accepted == (old(self)@.known(id) && params@.wf()),
            accepted ==> final(self)@ == (State {
                subscriptions: old(self)@.subscriptions.insert(id, params@),
                ..old(self)@
            }),
            !accepted ==> *final(self) == *old(self),
    {
        if id == 0 || id > self.counter || !shares_are_valid(&params.recipients, &params.amounts)
            || params.remaining == 0 || params.remaining >= MAX_MONTHS {
            return false;
        }
        if checked_total(&params.amounts).is_none() {
            return false;
        }
        self.subscriptions.insert(id, params);
        assert(self@.subscriptions == old(self)@.subscriptions.insert(id, params@));
        true
    }

    /// Puts back a stored template, if it makes valid terms.
    pub fn restore_template(
        &mut self,
        creator: Address,
        name: String,
        template: InvoiceTemplate,
    ) -> (accepted: bool)
        requires
            old(self).wf(),
        ensures
            final(self).wf(),
            accepted == template@.wf(),
            accepted ==> final(self)@ == (State {
                templates: old(self)@.templates.insert((creator, name@), template@),
                ..old(self)@
            }),
            !accepted ==> *final(self) == *old(self),
    {
        if !shares_are_valid(&template.recipients, &template.amounts) {
            return false;
        }
        self.put_template(creator, name, template);
        true
    }
}

} // verus!
