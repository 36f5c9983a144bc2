//! The calls that only read.
use vstd::prelude::*;

use crate::context::occurs;
use crate::contract::SplitContract;
use crate::error::SplitError;
use crate::money::{paid_by, sum_paid_by};
use crate::types::{copied, Address, AuditEntry, Invoice};

verus! {

/// The audit log of an invoice, oldest entry first; empty if there is none.
pub fn get_audit_log(contract: &SplitContract, id: u64) -> (log: Vec<AuditEntry>)
    ensures
        log@ == contract@.log(id),
{
    match contract.logs.get(&id) {
        Some(log) => copied(log),
        None => Vec::new(),
    }
}

impl SplitContract {
    /// The total amount that `payer` has contributed toward an invoice: zero if they have not
    /// paid.
    pub fn get_payer_total(&self, invoice_id: u64, payer: Address) -> (res: Result<
        i128,
        SplitError,
    >)
        requires
            self.wf(),
        ensures
            match res {
                Ok(sum) => {
                    &&& self@.invoices.contains_key(invoice_id)
                    &&& sum == paid_by(self@.invoices[invoice_id].payments, payer)
                },
                Err(e) => {
                    &&& !self@.invoices.contains_key(invoice_id)
                    &&& e == SplitError::InvoiceNotFound
                },
            },
    {
        match self.load_invoice(invoice_id) {
            Err(e) => Err(e),
            Ok(invoice) => Ok(sum_paid_by(&invoice.payments, payer)),
        }
    }

    /// The invoice with this identifier.
    pub fn get_invoice(&self, invoice_id: u64) -> (res: Result<Invoice, SplitError>)
        ensures
            match res {
                Ok(invoice) => {
                    &&& self@.invoices.contains_key(invoice_id)
                    &&& invoice@ == self@.invoices[invoice_id]
                },
                Err(e) => {
                    &&& !self@.invoices.contains_key(invoice_id)
                    &&& e == SplitError::InvoiceNotFound
                },
            },
    {
        match self.load_invoice(invoice_id) {
            Err(e) => Err(e),
            Ok(invoice) => Ok(invoice.clone()),
        }
    }

    /// The audit log of an invoice, oldest entry first; empty if there is none.
    pub fn get_audit_log(&self, invoice_id: u64) -> (log: Vec<AuditEntry>)
        ensures
            log@ == self@.log(invoice_id),
    {
        get_audit_log(self, invoice_id)
    }

    /// The identifiers of the invoices that owe something to `recipient`, oldest first.
    pub fn get_invoices_by_recipient(&self, recipient: Address) -> (ids: Vec<u64>)
        requires
            self.wf(),
        ensures
            forall|i: int, j: int| 0 <= i < j < ids@.len() ==> ids@[i] < ids@[j],
            forall|id: u64| #[trigger]
                ids@.contains(id) <==> self@.invoices.contains_key(id)
                    && self@.invoices[id].recipients.contains(recipient),
    {
        let mut ids: Vec<u64> = Vec::new();
        let mut id: u64 = 0;
        while id < self.counter
            invariant
                id <= self.counter,
                forall|i: int| 0 <= i < ids@.len() ==> ids@[i] <= id,
                forall|i: int, j: int| 0 <= i < j < ids@.len() ==> ids@[i] < ids@[j],
                forall|k: u64| #[trigger]
                    ids@.contains(k) <==> 1 <= k <= id && self@.invoices.contains_key(k)
                        && self@.invoices[k].recipients.contains(recipient),
            decreases self.counter - id,
        {
            id = id + 1;
            let ghost before = ids@;
            if let Some(invoice) = self.invoices.get(&id) {
                if occurs(&invoice.recipients, recipient) {
                    ids.push(id);
                    assert(ids@.last() == id);
                    assert forall|k: u64| #[trigger]
                        ids@.contains(k) == (before.contains(k) || k == id) by {
                        if before.contains(k) {
                            let i = choose|i: int| 0 <= i < before.len() && before[i] == k;
                            assert(ids@[i] == k);
                        }
                    }
                }
            }
        }
        ids
    }
}

} // verus!
