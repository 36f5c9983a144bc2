//! What a call sees of the ledger, and what it asks the ledger to do.
use vstd::prelude::*;

use crate::types::Address;

verus! {

/// A movement of `amount` units of `token`.
#[derive(Clone, Copy, PartialEq, Eq, Structural, Debug)]
pub struct Transfer {
    pub token: Address,
    pub from: Address,
    pub to: Address,
    pub amount: i128,
}

/// Something that the ledger does on the contract's behalf.
#[derive(Debug, PartialEq, Eq)]
pub enum Effect {
    /// Move tokens. The whole call fails if the token contract refuses.
    Transfer(Transfer),
    /// Publish that an invoice was created.
    InvoiceCreated { id: u64, creator: Address, total: i128 },
    /// Publish that a payment was taken.
    PaymentReceived { id: u64, payer: Address, amount: i128 },
    /// Publish that an invoice was paid out.
    InvoiceReleased { id: u64, recipients: Vec<Address> },
    /// Publish that an invoice was refunded.
    InvoiceRefunded { id: u64 },
}

/// The mathematical content of an [`Effect`].
#[verifier::ext_equal]
pub enum EffectView {
    Transfer(Transfer),
    InvoiceCreated { id: u64, creator: Address, total: int },
    PaymentReceived { id: u64, payer: Address, amount: int },
    InvoiceReleased { id: u64, recipients: Seq<Address> },
    InvoiceRefunded { id: u64 },
}

impl View for Effect {
    type V = EffectView;

    open spec fn view(&self) -> EffectView {
        match *self {
            Effect::Transfer(t) => EffectView::Transfer(t),
            Effect::InvoiceCreated { id, creator, total } => EffectView::InvoiceCreated {
                id,
                creator,
                total: total as int,
            },
            Effect::PaymentReceived { id, payer, amount } => EffectView::PaymentReceived {
                id,
                payer,
                amount: amount as int,
            },
            Effect::InvoiceReleased { id, recipients } => EffectView::InvoiceReleased {
                id,
                recipients: recipients@,
            },
            Effect::InvoiceRefunded { id } => EffectView::InvoiceRefunded { id },
        }
    }
}

/// The surroundings of one call.
#[derive(Debug, PartialEq, Eq)]
pub struct Context {
    /// The time of the ledger that the call runs in, as a Unix timestamp.
    pub timestamp: u64,
    /// The address of the contract itself.
    pub contract: Address,
    /// The addresses that have authorized the call.
    pub authorized: Vec<Address>,
    /// What the ledger is asked to do, in order.
    pub effects: Vec<Effect>,
}

/// The mathematical content of a [`Context`].
#[verifier::ext_equal]
pub struct ContextView {
    pub timestamp: u64,
    pub contract: Address,
    pub authorized: Seq<Address>,
    pub effects: Seq<EffectView>,
}

impl ContextView {
    /// This context once `more` has been asked for.
    pub open spec fn asking(self, more: Seq<EffectView>) -> ContextView {
        ContextView { effects: self.effects + more, ..self }
    }
}

impl View for Context {
    type V = ContextView;

    open spec fn view(&self) -> ContextView {
        ContextView {
            timestamp: self.timestamp,
            contract: self.contract,
            authorized: self.authorized@,
            effects: self.effects@.map_values(|e: Effect| e@),
        }
    }
}

/// Whether `who` occurs in `list`.
pub(crate) fn occurs(list: &Vec<Address>, who: Address) -> (found: bool)
    ensures
        found == list@.contains(who),
{
    let mut i: usize = 0;
    while i < list.len()
        invariant
            i <= list@.len(),
            forall|j: int| 0 <= j < i ==> list@[j] != who,
        decreases list@.len() - i,
    {
        if list[i] == who {
            return true;
        }
        i = i + 1;
    }
    false
}

impl Context {
    /// A context in which nothing has been asked for yet.
    pub fn new(timestamp: u64, contract: Address, authorized: Vec<Address>) -> (ctx: Context)
        ensures
            ctx@ == (ContextView {
                timestamp,
                contract,
                authorized: authorized@,
                effects: Seq::empty(),
            }),
    {
        Context { timestamp, contract, authorized, effects: Vec::new() }
    }

    /// Whether `who` has authorized the call.
    pub fn is_authorized(&self, who: Address) -> (yes: bool)
        ensures
            yes == self@.authorized.contains(who),
    {
        occurs(&self.authorized, who)
    }

    /// Asks the ledger for one more effect.
    pub(crate) fn ask(&mut self, effect: Effect)
        ensures
            final(self)@ == old(self)@.asking(seq![effect@]),
    {
        self.effects.push(effect);
        assert(self@.effects == old(self)@.effects + seq![effect@]);
    }
}

} // verus!
