//! Completion proofs: what they attest, and the digest that seals them.
use soroban_sdk::{Bytes, Env};
use vstd::prelude::*;

use crate::context::Context;
use crate::contract::SplitContract;
use crate::error::SplitError;
use crate::model::State;
use crate::types::{CompletionProof, Invoice, InvoiceStatus, InvoiceView};

verus! {

/// The environment that a contract runs in.
#[verifier::external_type_specification]
#[verifier::external_body]
pub struct ExEnv(soroban_sdk::Env);

/// The SHA-256 digest of a message, as the environment computes it.
pub uninterp spec fn sha256_digest(message: Seq<u8>) -> Seq<u8>;

/// Calls `soroban_sdk::crypto::Crypto::sha256` on the message, as `soroban_sdk::Bytes`.
///
/// Taken on trust: the digest has 32 bytes and depends on the bytes of the message alone. That
/// SHA-256 computes it is not stated. Messages are as long as a completion message. The
/// environment aborts the call if it has run out of its budget of computation.
#[verifier::external_body]
fn sha256(env: &Env, message: &Vec<u8>) -> (digest: [u8; 32])
    requires
        message@.len() == 33,
    ensures
        digest@ == sha256_digest(message@),
{
    let bytes = Bytes::from_slice(env, message.as_slice());
    env.crypto().sha256(&bytes).to_array()
}

/// `value` in `n` bytes, least significant first.
pub open spec fn le_bytes(value: nat, n: nat) -> Seq<u8>
    decreases n,
{
    if n == 0 {
        Seq::empty()
    } else {
        seq![(value % 256) as u8] + le_bytes(value / 256, (n - 1) as nat)
    }
}

/// The 128-bit two's complement of a signed number.
pub open spec fn twos_complement(value: int) -> nat {
    if value >= 0 {
        value as nat
    } else {
        (value + u128::MAX + 1) as nat
    }
}

/// The byte that stands for a status.
pub open spec fn status_code(status: InvoiceStatus) -> u8 {
    match status {
        InvoiceStatus::Pending => 0,
        InvoiceStatus::Released => 1,
        InvoiceStatus::Refunded => 2,
        InvoiceStatus::Cancelled => 3,
    }
}

/// What a completion proof attests: the identifier, what was funded, the deadline and the status,
/// the numbers least significant byte first.
pub open spec fn completion_message(id: u64, invoice: InvoiceView) -> Seq<u8> {
    le_bytes(id as nat, 8) + le_bytes(twos_complement(invoice.funded), 16) + le_bytes(
        invoice.deadline as nat,
        8,
    ) + seq![status_code(invoice.status)]
}

/// Why no completion proof can be given, if so.
pub open spec fn completion_refusal(s: State, id: u64) -> Option<SplitError> {
    if !s.invoices.contains_key(id) {
        Some(SplitError::InvoiceNotFound)
    } else if s.invoices[id].status != InvoiceStatus::Released && s.invoices[id].status
        != InvoiceStatus::Refunded {
        Some(SplitError::NotFinalized)
    } else {
        None
    }
}

/// Appends `value` in `n` bytes, least significant first.
fn push_le_bytes(message: &mut Vec<u8>, value: u128, n: usize)
    ensures
        final(message)@ == old(message)@ + le_bytes(value as nat, n as nat),
{
    let mut rest: u128 = value;
    let mut i: usize = 0;
    while i < n
        invariant
            i <= n,
            message@ + le_bytes(rest as nat, (n - i) as nat) == old(message)@ + le_bytes(
                value as nat,
                n as nat,
            ),
        decreases n - i,
    {
        let byte: u8 = (rest % 256) as u8;
        let ghost before = message@;
        message.push(byte);
        assert(before + le_bytes(rest as nat, (n - i) as nat) == message@ + le_bytes(
            (rest / 256) as nat,
            (n - i - 1) as nat,
        ));
        rest = rest / 256;
        i = i + 1;
    }
    assert(message@ == message@ + le_bytes(rest as nat, 0));
}

/// The 128-bit two's complement of a signed number.
fn as_unsigned(value: i128) -> (bits: u128)
    ensures
        bits == twos_complement(value as int),
{
    if value >= 0 {
        value as u128
    } else {
        u128::MAX - (-(value + 1)) as u128
    }
}

/// The message that the completion proof of an invoice attests.
pub fn message_of(id: u64, invoice: &Invoice) -> (message: Vec<u8>)
    ensures
        message@ == completion_message(id, invoice@),
{
    let mut message: Vec<u8> = Vec::new();
    push_le_bytes(&mut message, id as u128, 8);
    push_le_bytes(&mut message, as_unsigned(invoice.funded), 16);
    push_le_bytes(&mut message, invoice.deadline as u128, 8);
    let code: u8 = match invoice.status {
        InvoiceStatus::Pending => 0,
        InvoiceStatus::Released => 1,
        InvoiceStatus::Refunded => 2,
        InvoiceStatus::Cancelled => 3,
    };
    message.push(code);
    assert(message@ == completion_message(id, invoice@));
    message
}

/// A message is as long as the numbers in it.
pub proof fn lemma_message_len(id: u64, invoice: InvoiceView)
    ensures
        completion_message(id, invoice).len() == 33,
{
    lemma_le_bytes_len(id as nat, 8);
    lemma_le_bytes_len(twos_complement(invoice.funded), 16);
    lemma_le_bytes_len(invoice.deadline as nat, 8);
}

/// A number in `n` bytes has `n` bytes.
pub proof fn lemma_le_bytes_len(value: nat, n: nat)
    ensures
        le_bytes(value, n).len() == n,
    decreases n,
{
    if n > 0 {
        lemma_le_bytes_len(value / 256, (n - 1) as nat);
    }
}

/// The number of values that `n` bytes can tell apart.
spec fn byte_range(n: nat) -> nat
    decreases n,
{
    if n == 0 {
        1
    } else {
        256 * byte_range((n - 1) as nat)
    }
}

/// Two numbers with the same bytes are the same number.
proof fn lemma_le_bytes_injective(a: nat, b: nat, n: nat)
    requires
        a < byte_range(n),
        b < byte_range(n),
        le_bytes(a, n) == le_bytes(b, n),
    ensures
        a == b,
    decreases n,
{
    if n > 0 {
        let rest_a = le_bytes(a / 256, (n - 1) as nat);
        let rest_b = le_bytes(b / 256, (n - 1) as nat);
        assert(le_bytes(a, n)[0] == (a % 256) as u8);
        assert(le_bytes(b, n)[0] == (b % 256) as u8);
        assert(le_bytes(a, n).skip(1) == rest_a);
        assert(le_bytes(b, n).skip(1) == rest_b);
        lemma_le_bytes_injective(a / 256, b / 256, (n - 1) as nat);
    }
}

/// A completion message tells which invoice it is about, what was funded, the deadline and the
/// status: no two finalized invoices that differ in one of these share a message.
pub proof fn law_message_identifies(id: u64, invoice: InvoiceView, other: u64, twin: InvoiceView)
    requires
        i128::MIN <= invoice.funded <= i128::MAX,
        i128::MIN <= twin.funded <= i128::MAX,
        completion_message(id, invoice) == completion_message(other, twin),
    ensures
        id == other,
        invoice.funded == twin.funded,
        invoice.deadline == twin.deadline,
        invoice.status == twin.status,
{
    let a = completion_message(id, invoice);
    let b = completion_message(other, twin);
    let funded_a = twos_complement(invoice.funded);
    let funded_b = twos_complement(twin.funded);
    lemma_message_len(id, invoice);
    lemma_le_bytes_len(id as nat, 8);
    lemma_le_bytes_len(other as nat, 8);
    lemma_le_bytes_len(funded_a, 16);
    lemma_le_bytes_len(funded_b, 16);
    lemma_le_bytes_len(invoice.deadline as nat, 8);
    lemma_le_bytes_len(twin.deadline as nat, 8);
    assert(a.subrange(0, 8) == le_bytes(id as nat, 8));
    assert(b.subrange(0, 8) == le_bytes(other as nat, 8));
    assert(a.subrange(8, 24) == le_bytes(funded_a, 16));
    assert(b.subrange(8, 24) == le_bytes(funded_b, 16));
    assert(a.subrange(24, 32) == le_bytes(invoice.deadline as nat, 8));
    assert(b.subrange(24, 32) == le_bytes(twin.deadline as nat, 8));
    assert(a[32] == status_code(invoice.status));
    assert(b[32] == status_code(twin.status));
    reveal_with_fuel(byte_range, 17);
    assert(byte_range(8) == u64::MAX + 1);
    assert(byte_range(16) == u128::MAX + 1);
    lemma_le_bytes_injective(id as nat, other as nat, 8);
    lemma_le_bytes_injective(funded_a, funded_b, 16);
    lemma_le_bytes_injective(invoice.deadline as nat, twin.deadline as nat, 8);
}

impl SplitContract {
    /// The completion proof of a finalized invoice, sealed with a digest that is already known.
    pub fn seal_completion(&self, invoice_id: u64, timestamp: u64, hash: [u8; 32]) -> (res: Result<
        CompletionProof,
        SplitError,
    >)
        ensures
            match completion_refusal(self@, invoice_id) {
                Some(e) => res == Err::<CompletionProof, SplitError>(e),
                None => {
                    let invoice = self@.invoices[invoice_id];
                    &&& res matches Ok(sealed)
                    &&& sealed.id == invoice_id
                    &&& sealed.status == invoice.status
                    &&& sealed.funded == invoice.funded
                    &&& sealed.timestamp == timestamp
                    &&& sealed.hash == hash
                },
            },
    {
        match self.load_invoice(invoice_id) {
            Err(e) => Err(e),
            Ok(invoice) => {
                if invoice.status != InvoiceStatus::Released && invoice.status
                    != InvoiceStatus::Refunded {
                    return Err(SplitError::NotFinalized);
                }
                Ok(
                    CompletionProof {
                        id: invoice_id,
                        status: invoice.status,
                        funded: invoice.funded,
                        timestamp,
                        hash,
                    },
                )
            },
        }
    }

    /// The completion proof of a finalized invoice: its identifier, status and funded amount, the
    /// time of the call, and a SHA-256 digest for checking off the ledger.
    pub fn get_completion_proof(&self, env: &Env, ctx: &Context, invoice_id: u64) -> (res: Result<
        CompletionProof,
        SplitError,
    >)
        ensures
            match completion_refusal(self@, invoice_id) {
                Some(e) => res == Err::<CompletionProof, SplitError>(e),
                None => {
                    let invoice = self@.invoices[invoice_id];
                    &&& res matches Ok(sealed)
                    &&& sealed.id == invoice_id
                    &&& sealed.status == invoice.status
                    &&& sealed.funded == invoice.funded
                    &&& sealed.timestamp == ctx@.timestamp
                    &&& sealed.hash@ == sha256_digest(completion_message(invoice_id, invoice))
                },
            },
    {
        match self.load_invoice(invoice_id) {
            Err(e) => Err(e),
            Ok(invoice) => {
                if invoice.status != InvoiceStatus::Released && invoice.status
                    != InvoiceStatus::Refunded {
                    return Err(SplitError::NotFinalized);
                }
                proof {
                    lemma_message_len(invoice_id, invoice@);
                }
                let hash = sha256(env, &message_of(invoice_id, invoice));
                self.seal_completion(invoice_id, ctx.timestamp, hash)
            },
        }
    }
}

} // verus!
