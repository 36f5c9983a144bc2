//! On-chain invoice and payment splitting.
//!
//! A creator defines an invoice with several recipients and amounts. Payers contribute to it; the
//! payment that completes it pays every recipient. If the deadline passes first, the payers are
//! refunded.
//!
//! [`SplitContract`] holds the records and answers the calls, [`Context`] is what a call sees of
//! the ledger and asks of it. The [`model`] says what each call does. [`promises`] says it in
//! terms of the records and transfers alone, and [`meaning`] what its words mean. [`laws`],
//! [`schedule`], [`escrow`] and [`parts`] say what follows.
pub mod calls;
pub mod completion;
pub mod context;
pub mod contract;
pub mod error;
pub mod escrow;
pub mod laws;
pub mod meaning;
pub mod model;
pub mod money;
pub mod parts;
pub mod promises;
pub mod queries;
pub mod requests;
pub mod restore;
pub mod schedule;
pub mod transfers;
pub mod types;
pub mod validity;

pub use context::{Context, ContextView, Effect, EffectView, Transfer};
pub use contract::SplitContract;
pub use error::SplitError;
pub use queries::get_audit_log;
pub use types::{
    Address, AddressKind, AuditAction, AuditEntry, CompletionProof, Invoice, InvoiceStatus,
    InvoiceTemplate, InvoiceView, Payment, SubscriptionParams, SubscriptionView, TemplateEntry,
    TemplateView,
};
