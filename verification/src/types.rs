//! The records that the contract keeps, and the mathematical view of each.
use vstd::prelude::*;

verus! {

/// What kind of party an address names.
#[derive(Clone, Copy, PartialEq, Eq, Structural, Debug)]
pub enum AddressKind {
    /// A classic account, named by its ed25519 public key.
    Account,
    /// A contract, named by its hash.
    Contract,
}

/// An account or a contract on the ledger: its kind and its 256-bit key, most significant half
/// first.
#[derive(Clone, Copy, PartialEq, Eq, Structural, Debug)]
pub struct Address {
    pub kind: AddressKind,
    pub high: u128,
    pub low: u128,
}

/// Where an invoice stands. Only a pending invoice ever changes.
#[derive(Clone, Copy, PartialEq, Eq, Structural, Debug)]
pub enum InvoiceStatus {
    /// Collecting payments.
    Pending,
    /// Fully funded and paid out to the recipients.
    Released,
    /// Closed without a payout; whatever had been paid went back to the payers.
    Refunded,
    /// Withdrawn. No call leads here: a cancelled invoice is marked as refunded.
    Cancelled,
}

/// One contribution toward an invoice.
#[derive(Clone, Copy, PartialEq, Eq, Structural, Debug)]
pub struct Payment {
    pub payer: Address,
    pub amount: i128,
}

/// What an audit entry records.
#[derive(Clone, Copy, PartialEq, Eq, Structural, Debug)]
pub enum AuditAction {
    Pay,
    Release,
    Refund,
    Cancel,
    Extend,
}

impl AuditAction {
    /// The symbol under which the action is logged.
    pub open spec fn symbol(self) -> Seq<char> {
        match self {
            AuditAction::Pay => "pay"@,
            AuditAction::Release => "release"@,
            AuditAction::Refund => "refund"@,
            AuditAction::Cancel => "cancel"@,
            AuditAction::Extend => "extend"@,
        }
    }

    /// The symbol under which the action is logged.
    pub fn as_str(&self) -> (s: &'static str)
        ensures
            s@ == self.symbol(),
    {
        match self {
            AuditAction::Pay => "pay",
            AuditAction::Release => "release",
            AuditAction::Refund => "refund",
            AuditAction::Cancel => "cancel",
            AuditAction::Extend => "extend",
        }
    }
}

/// One line of an invoice's audit log: who did what, and when.
#[derive(Clone, Copy, PartialEq, Eq, Structural, Debug)]
pub struct AuditEntry {
    pub action: AuditAction,
    pub actor: Address,
    pub timestamp: u64,
}

/// An invoice: `amounts[i]` is owed to `recipients[i]`, in units of `token`.
#[derive(Debug, PartialEq, Eq)]
pub struct Invoice {
    pub creator: Address,
    pub recipients: Vec<Address>,
    pub amounts: Vec<i128>,
    pub token: Address,
    /// The last moment at which payments are taken.
    pub deadline: u64,
    /// What has been paid in so far.
    pub funded: i128,
    pub status: InvoiceStatus,
    /// Every payment, oldest first.
    pub payments: Vec<Payment>,
}

/// A reusable list of recipients and amounts.
#[derive(Debug, PartialEq, Eq)]
pub struct InvoiceTemplate {
    pub recipients: Vec<Address>,
    pub amounts: Vec<i128>,
    pub token: Address,
}

/// What the later invoices of a subscription are made from.
#[derive(Debug, PartialEq, Eq)]
pub struct SubscriptionParams {
    pub creator: Address,
    pub recipients: Vec<Address>,
    pub amounts: Vec<i128>,
    pub token: Address,
    /// How many invoices of the chain are still to be created.
    pub remaining: u32,
}

/// A template together with the creator and the name it is saved under.
#[derive(Debug, PartialEq, Eq)]
pub struct TemplateEntry {
    pub creator: Address,
    pub name: String,
    pub template: InvoiceTemplate,
}

/// Evidence that an invoice was finalized, for checking off the ledger.
#[derive(Clone, Copy, Debug, PartialEq, Eq)]
pub struct CompletionProof {
    pub id: u64,
    pub status: InvoiceStatus,
    pub funded: i128,
    /// When the proof was made.
    pub timestamp: u64,
    /// The SHA-256 digest of the completion message.
    pub hash: [u8; 32],
}

/// The mathematical content of an [`Invoice`].
#[verifier::ext_equal]
pub struct InvoiceView {
    pub creator: Address,
    pub recipients: Seq<Address>,
    pub amounts: Seq<i128>,
    pub token: Address,
    pub deadline: u64,
    pub funded: int,
    pub status: InvoiceStatus,
    pub payments: Seq<Payment>,
}

/// The mathematical content of an [`InvoiceTemplate`].
#[verifier::ext_equal]
pub struct TemplateView {
    pub recipients: Seq<Address>,
    pub amounts: Seq<i128>,
    pub token: Address,
}

/// The mathematical content of [`SubscriptionParams`].
#[verifier::ext_equal]
pub struct SubscriptionView {
    pub creator: Address,
    pub recipients: Seq<Address>,
    pub amounts: Seq<i128>,
    pub token: Address,
    pub remaining: u32,
}

impl View for Invoice {
    type V = InvoiceView;

    open spec fn view(&self) -> InvoiceView {
        InvoiceView {
            creator: self.creator,
            recipients: self.recipients@,
            amounts: self.amounts@,
            token: self.token,
            deadline: self.deadline,
            funded: self.funded as int,
            status: self.status,
            payments: self.payments@,
        }
    }
}

impl View for InvoiceTemplate {
    type V = TemplateView;

    open spec fn view(&self) -> TemplateView {
        TemplateView {
            recipients: self.recipients@,
            amounts: self.amounts@,
            token: self.token,
        }
    }
}

impl View for SubscriptionParams {
    type V = SubscriptionView;

    open spec fn view(&self) -> SubscriptionView {
        SubscriptionView {
            creator: self.creator,
            recipients: self.recipients@,
            amounts: self.amounts@,
            token: self.token,
            remaining: self.remaining,
        }
    }
}

/// A copy of a list of plain values.
pub(crate) fn copied<T: Copy>(items: &Vec<T>) -> (copy: Vec<T>)
    ensures
        copy@ == items@,
{
    let mut copy: Vec<T> = Vec::new();
    let mut i: usize = 0;
    while i < items.len()
        invariant
            i <= items@.len(),
            copy@ == items@.take(i as int),
        decreases items@.len() - i,
    {
        copy.push(items[i]);
        i = i + 1;
        assert(items@.take(i as int) == items@.take(i - 1).push(items@[i - 1]));
    }
    assert(items@.take(items@.len() as int) == items@);
    copy
}

impl Clone for Invoice {
    fn clone(&self) -> (copy: Self)
        ensures
            copy@ == self@,
    {
        Invoice {
            creator: self.creator,
            recipients: copied(&self.recipients),
            amounts: copied(&self.amounts),
            token: self.token,
            deadline: self.deadline,
            funded: self.funded,
            status: self.status,
            payments: copied(&self.payments),
        }
    }
}

} // verus!
