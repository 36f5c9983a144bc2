//! The contract's records, and the steps that several calls share.
use std::collections::BTreeMap;

use vstd::prelude::*;

use crate::context::{Context, Effect};
use crate::error::SplitError;
use crate::model::{created, entry, paid_out, successor_overflows, terms_refusal, State, MONTH};
use crate::money::{are_positive, checked_total};
use crate::transfers::pay_recipients;
use crate::types::{
    copied, Address, AuditAction, AuditEntry, Invoice, InvoiceStatus, InvoiceTemplate,
    SubscriptionParams, TemplateEntry, TemplateView,
};
use crate::validity::{lemma_created_valid, lemma_paid_out_valid};

verus! {

/// The invoice-splitting contract, with everything that it keeps on the ledger.
///
/// The records may also be a part of the ledger's that holds what a call reads: [`crate::parts`]
/// says when the part acts as the whole.
pub struct SplitContract {
    /// The identifier given out last.
    pub counter: u64,
    pub invoices: BTreeMap<u64, Invoice>,
    pub logs: BTreeMap<u64, Vec<AuditEntry>>,
    pub subscriptions: BTreeMap<u64, SubscriptionParams>,
    pub templates: Vec<TemplateEntry>,
}

/// What a template is found by.
pub open spec fn template_key(saved: TemplateEntry) -> (Address, Seq<char>) {
    (saved.creator, saved.name@)
}

/// The entry at `i` is saved under `key`.
pub open spec fn saved_at(
    entries: Seq<TemplateEntry>,
    key: (Address, Seq<char>),
    i: int,
) -> bool {
    0 <= i < entries.len() && template_key(entries[i]) == key
}

/// No two entries are saved under the same key.
pub open spec fn keys_distinct(entries: Seq<TemplateEntry>) -> bool {
    forall|i: int, j: int|
        0 <= i < j < entries.len() ==> template_key(#[trigger] entries[i]) != template_key(
            #[trigger] entries[j],
        )
}

/// The templates by key.
pub open spec fn templates_by_key(entries: Seq<TemplateEntry>) -> Map<
    (Address, Seq<char>),
    TemplateView,
> {
    Map::new(
        |key: (Address, Seq<char>)| exists|i: int| saved_at(entries, key, i),
        |key: (Address, Seq<char>)| entries[choose|i: int| saved_at(entries, key, i)].template@,
    )
}

/// The template kept at `i` is the one found under its key.
pub proof fn lemma_saved(entries: Seq<TemplateEntry>, key: (Address, Seq<char>), i: int)
    requires
        keys_distinct(entries),
        saved_at(entries, key, i),
    ensures
        templates_by_key(entries).contains_key(key),
        templates_by_key(entries)[key] == entries[i].template@,
{
    let j = choose|j: int| saved_at(entries, key, j);
    assert(template_key(entries[i]) == template_key(entries[j]));
}

/// Replacing the entry at `i` by one with the same key replaces the template under that key.
proof fn lemma_saved_again(entries: Seq<TemplateEntry>, i: int, saved: TemplateEntry)
    requires
        keys_distinct(entries),
        saved_at(entries, template_key(saved), i),
    ensures
        keys_distinct(entries.update(i, saved)),
        templates_by_key(entries.update(i, saved)) == templates_by_key(entries).insert(
            template_key(saved),
            saved.template@,
        ),
{
    let after = entries.update(i, saved);
    assert forall|j: int, k: int| 0 <= j < k < after.len() implies template_key(
        #[trigger] after[j],
    ) != template_key(#[trigger] after[k]) by {
        assert(template_key(after[j]) == template_key(entries[j]));
        assert(template_key(after[k]) == template_key(entries[k]));
    }
    let expected = templates_by_key(entries).insert(template_key(saved), saved.template@);
    assert forall|key: (Address, Seq<char>)| #[trigger]
        templates_by_key(after).contains_key(key) == expected.contains_key(key) by {
        if exists|j: int| saved_at(after, key, j) {
            let j = choose|j: int| saved_at(after, key, j);
            assert(saved_at(entries, key, j));
        }
        if exists|j: int| saved_at(entries, key, j) {
            let j = choose|j: int| saved_at(entries, key, j);
            assert(saved_at(after, key, j));
        }
    }
    assert forall|key: (Address, Seq<char>)| #[trigger]
        templates_by_key(after).contains_key(key) implies templates_by_key(after)[key]
        == expected[key] by {
        let j = choose|j: int| saved_at(after, key, j);
        lemma_saved(after, key, j);
        assert(saved_at(entries, key, j));
        lemma_saved(entries, key, j);
        if key == template_key(saved) {
            assert(saved_at(after, key, i));
            lemma_saved(after, key, i);
        }
    }
    assert(templates_by_key(after) =~= expected);
}

/// Adding an entry under a new key adds the template under that key.
proof fn lemma_saved_anew(entries: Seq<TemplateEntry>, saved: TemplateEntry)
    requires
        keys_distinct(entries),
        !templates_by_key(entries).contains_key(template_key(saved)),
    ensures
        keys_distinct(entries.push(saved)),
        templates_by_key(entries.push(saved)) == templates_by_key(entries).insert(
            template_key(saved),
            saved.template@,
        ),
{
    let after = entries.push(saved);
    assert forall|j: int, k: int| 0 <= j < k < after.len() implies template_key(
        #[trigger] after[j],
    ) != template_key(#[trigger] after[k]) by {
        if k == entries.len() {
            assert(!saved_at(entries, template_key(saved), j));
        }
    }
    let expected = templates_by_key(entries).insert(template_key(saved), saved.template@);
    assert forall|key: (Address, Seq<char>)| #[trigger]
        templates_by_key(after).contains_key(key) == expected.contains_key(key) by {
        if exists|j: int| saved_at(after, key, j) {
            let j = choose|j: int| saved_at(after, key, j);
            assert(j < entries.len() ==> saved_at(entries, key, j));
        }
        if exists|j: int| saved_at(entries, key, j) {
            let j = choose|j: int| saved_at(entries, key, j);
            assert(saved_at(after, key, j));
        }
        assert(saved_at(after, template_key(saved), entries.len() as int));
    }
    assert forall|key: (Address, Seq<char>)| #[trigger]
        templates_by_key(after).contains_key(key) implies templates_by_key(after)[key]
        == expected[key] by {
        let j = choose|j: int| saved_at(after, key, j);
        lemma_saved(after, key, j);
        if j < entries.len() {
            assert(saved_at(entries, key, j));
            lemma_saved(entries, key, j);
        }
    }
    assert(templates_by_key(after) =~= expected);
}

impl View for SplitContract {
    type V = State;

    open spec fn view(&self) -> State {
        State {
            counter: self.counter,
            invoices: self.invoices@.map_values(|invoice: Invoice| invoice@),
            logs: self.logs@.map_values(|log: Vec<AuditEntry>| log@),
            subscriptions: self.subscriptions@.map_values(|params: SubscriptionParams| params@),
            templates: templates_by_key(self.templates@),
        }
    }
}

impl SplitContract {
    /// The records are valid, and no template is kept twice.
    pub open spec fn wf(&self) -> bool {
        &&& self@.wf()
        &&& keys_distinct(self.templates@)
    }

    // -----------------------------------------------------------------------
    // Records
    // -----------------------------------------------------------------------
    /// The invoice kept under this identifier.
    pub(crate) fn load_invoice(&self, id: u64) -> (res: Result<&Invoice, SplitError>)
        ensures
            match res {
                Ok(invoice) => self@.invoices.contains_key(id) && self@.invoices[id] == invoice@,
                Err(e) => !self@.invoices.contains_key(id) && e == SplitError::InvoiceNotFound,
            },
    {
        match self.invoices.get(&id) {
            Some(invoice) => Ok(invoice),
            None => Err(SplitError::InvoiceNotFound),
        }
    }

    /// Keeps an invoice, in place of any under the same identifier.
    pub(crate) fn save_invoice(&mut self, id: u64, invoice: Invoice)
        ensures
            final(self)@ == old(self)@.holding(id, invoice@),
            final(self).templates == old(self).templates,
    {
        self.invoices.insert(id, invoice);
        assert(self@.invoices == old(self)@.invoices.insert(id, invoice@));
    }

    /// Appends a line to the audit log of an invoice.
    pub(crate) fn append_audit_entry(
        &mut self,
        ctx: &Context,
        id: u64,
        action: AuditAction,
        actor: Address,
    )
        ensures
            final(self)@ == old(self)@.logging(id, entry(ctx@, action, actor)),
            final(self).templates == old(self).templates,
    {
        let line = AuditEntry { action, actor, timestamp: ctx.timestamp };
        let mut log: Vec<AuditEntry> = match self.logs.remove(&id) {
            Some(log) => log,
            None => Vec::new(),
        };
        let ghost before = log@;
        log.push(line);
        self.logs.insert(id, log);
        assert(before == old(self)@.log(id));
        assert(self@.logs == old(self)@.logs.insert(id, old(self)@.log(id).push(line)));
    }

    /// Where the template of this creator and name is kept.
    pub(crate) fn template_index(&self, creator: Address, name: &String) -> (found: Option<usize>)
        requires
            self.wf(),
        ensures
            match found {
                Some(i) => {
                    &&& i < self.templates@.len()
                    &&& self@.templates.contains_key((creator, name@))
                    &&& self@.templates[(creator, name@)] == self.templates@[i as int].template@
                    &&& saved_at(self.templates@, (creator, name@), i as int)
                },
                None => !self@.templates.contains_key((creator, name@)),
            },
    {
        let ghost key = (creator, name@);
        let mut i: usize = 0;
        while i < self.templates.len()
            invariant
                i <= self.templates@.len(),
                key == (creator, name@),
                forall|j: int| 0 <= j < i ==> !saved_at(self.templates@, key, j),
                keys_distinct(self.templates@),
            decreases self.templates@.len() - i,
        {
            let saved = &self.templates[i];
            if saved.creator == creator && saved.name == *name {
                proof {
                    lemma_saved(self.templates@, key, i as int);
                }
                return Some(i);
            }
            i = i + 1;
        }
        None
    }

    /// Keeps a template, in place of any under the same creator and name.
    pub(crate) fn put_template(&mut self, creator: Address, name: String, template: InvoiceTemplate)
        requires
            old(self).wf(),
            template@.wf(),
        ensures
            final(self).wf(),
            final(self)@ == (State {
                templates: old(self)@.templates.insert((creator, name@), template@),
                ..old(self)@
            }),
    {
        match self.template_index(creator, &name) {
            Some(i) => {
                self.templates.set(i, TemplateEntry { creator, name, template });
                proof {
                    lemma_saved_again(old(self).templates@, i as int, self.templates@[i as int]);
                }
            },
            None => {
                self.templates.push(TemplateEntry { creator, name, template });
                proof {
                    lemma_saved_anew(old(self).templates@, self.templates@.last());
                }
            },
        }
    }

    // -----------------------------------------------------------------------
    // Shared steps
    // -----------------------------------------------------------------------
    /// Creates an invoice. Whether the creator has authorized the call is the caller's to check.
    pub(crate) fn _create_invoice(
        &mut self,
        ctx: &mut Context,
        creator: Address,
        recipients: Vec<Address>,
        amounts: Vec<i128>,
        token: Address,
        deadline: u64,
    ) -> (res: Result<u64, SplitError>)
        requires
            old(self).wf(),
        ensures
            final(self).wf(),
            final(self).templates == old(self).templates,
            match terms_refusal(
                old(self)@,
                old(ctx)@.timestamp,
                recipients@,
                amounts@,
                deadline,
            ) {
                Some(e) => {
                    &&& res == Err::<u64, SplitError>(e)
                    &&& *final(self) == *old(self)
                    &&& *final(ctx) == *old(ctx)
                },
                None => {
                    let outcome = created(
                        old(self)@,
                        creator,
                        recipients@,
                        amounts@,
                        token,
                        deadline,
                    );
                    &&& res == Ok::<u64, SplitError>(old(self)@.next_id())
                    &&& final(self)@ == outcome.state
                    &&& final(ctx)@ == old(ctx)@.asking(outcome.effects)
                },
            },
    {
        if recipients.len() != amounts.len() {
            return Err(SplitError::LengthMismatch);
        }
        if recipients.len() == 0 {
            return Err(SplitError::NoRecipients);
        }
        if deadline <= ctx.timestamp {
            return Err(SplitError::DeadlineNotInFuture);
        }
        if !are_positive(&amounts) {
            return Err(SplitError::AmountNotPositive);
        }
        if self.counter == u64::MAX {
            return Err(SplitError::Overflow);
        }
        let sum: i128 = match checked_total(&amounts) {
            Some(sum) => sum,
            None => {
                return Err(SplitError::Overflow);
            },
        };
        let id: u64 = self.counter + 1;
        self.counter = id;
        let invoice = Invoice {
            creator,
            recipients,
            amounts,
            token,
            deadline,
            funded: 0,
            status: InvoiceStatus::Pending,
            payments: Vec::new(),
        };
        self.save_invoice(id, invoice);
        proof {
            lemma_created_valid(
                old(self)@,
                creator,
                invoice.recipients@,
                invoice.amounts@,
                token,
                deadline,
            );
        }
        ctx.ask(Effect::InvoiceCreated { id, creator, total: sum });
        Ok(id)
    }

    /// Whether the next invoice of this one's subscription would be out of range.
    pub(crate) fn successor_overflow(&self, now: u64, id: u64) -> (yes: bool)
        ensures
            yes == successor_overflows(self@, now, id),
    {
        self.subscriptions.contains_key(&id) && (now > u64::MAX - MONTH || self.counter
            == u64::MAX)
    }

    /// Routes the funds to all recipients and marks the invoice as released. Also creates the
    /// next invoice of its subscription, if there is one.
    pub(crate) fn _release(&mut self, ctx: &mut Context, id: u64, actor: Address)
        requires
            old(self).wf(),
            old(self)@.invoices.contains_key(id),
            old(self)@.invoices[id].funded == old(self)@.invoices[id].total(),
            !successor_overflows(old(self)@, old(ctx)@.timestamp, id),
        ensures
            final(self).wf(),
            final(self)@ == paid_out(old(self)@, old(ctx)@, id, actor).state,
            final(ctx)@ == old(ctx)@.asking(paid_out(old(self)@, old(ctx)@, id, actor).effects),
    {
        let ghost s = old(self)@;
        let mut invoice = self.invoices.remove(&id).unwrap();
        pay_recipients(ctx, &invoice);
        let recipients = copied(&invoice.recipients);
        invoice.status = InvoiceStatus::Released;
        self.save_invoice(id, invoice);
        self.append_audit_entry(ctx, id, AuditAction::Release, actor);
        ctx.ask(Effect::InvoiceReleased { id, recipients });
        proof {
            lemma_paid_out_valid(s, old(ctx)@, id, actor);
        }
        let ghost closed = self@;
        assert(closed == s.holding(id, invoice@).logging(
            id,
            entry(old(ctx)@, AuditAction::Release, actor),
        ));
        if let Some(mut params) = self.subscriptions.remove(&id) {
            let ghost unscheduled = self@;
            assert(unscheduled == State {
                subscriptions: s.subscriptions.remove(id),
                ..closed
            });
            let ghost scheduled = params@;
            assert(scheduled == s.subscriptions[id]);
            let deadline: u64 = ctx.timestamp + MONTH;
            let next = self._create_invoice(
                ctx,
                params.creator,
                copied(&params.recipients),
                copied(&params.amounts),
                params.token,
                deadline,
            );
            let ghost followed = self@;
            assert(next == Ok::<u64, SplitError>(s.next_id()));
            if let Ok(next_id) = next {
                if params.remaining > 1 {
                    params.remaining = params.remaining - 1;
                    self.subscriptions.insert(next_id, params);
                    assert(self@.subscriptions == followed.subscriptions.insert(
                        next_id,
                        params@,
                    ));
                }
            }
            assert(self@ == paid_out(s, old(ctx)@, id, actor).state);
            assert(ctx@ == old(ctx)@.asking(paid_out(s, old(ctx)@, id, actor).effects));
        } else {
            assert(self@ == closed);
            assert(ctx@ == old(ctx)@.asking(paid_out(s, old(ctx)@, id, actor).effects));
        }
    }
}

/// What an invoice asks for in all.
pub(crate) fn invoice_total(invoice: &Invoice) -> (sum: i128)
    requires
        invoice@.wf(),
    ensures
        sum == invoice@.total(),
{
    checked_total(&invoice.amounts).unwrap()
}

} // verus!
