//! What the words of the contracts mean: sums, payers, validity, views and messages, each told by
//! how it relates to the plain values.
use vstd::arithmetic::div_mod::lemma_div_denominator;
use vstd::arithmetic::power::{lemma_pow0, lemma_pow1, lemma_pow_adds, lemma_pow_positive, pow};
use vstd::prelude::*;

use crate::completion::{
    completion_message, completion_refusal, le_bytes, lemma_le_bytes_len, twos_complement,
};
use crate::context::{Context, ContextView, Effect, EffectView};
use crate::contract::{lemma_saved, saved_at, template_key, SplitContract};
use crate::error::SplitError;
use crate::model::State;
use crate::money::{lemma_payers, paid, paid_by, payers, total};
use crate::requests::{accepted, after, outcome, refusal, Request};
use crate::types::{
    Address, AuditEntry, Invoice, InvoiceStatus, InvoiceTemplate, InvoiceView, Payment,
    SubscriptionParams, SubscriptionView, TemplateView,
};

verus! {

// ---------------------------------------------------------------------------
// Sums
// ---------------------------------------------------------------------------
/// The sum of two lists of amounts together is the sum of their sums, and a single amount is its
/// own sum.
pub proof fn law_total_is_the_sum(a: Seq<i128>, b: Seq<i128>, amount: i128)
    ensures
        total(a + b) == total(a) + total(b),
        total(seq![amount]) == amount,
        total(Seq::empty()) == 0,
    decreases b.len(),
{
    assert(seq![amount].drop_last().len() == 0);
    assert(total(seq![amount].drop_last()) == 0);
    if b.len() == 0 {
        assert(a + b == a);
    } else {
        assert((a + b).drop_last() == a + b.drop_last());
        law_total_is_the_sum(a, b.drop_last(), amount);
    }
}

/// What two lists of payments bring together is the sum of what they bring, in all and from each
/// payer; a single payment brings its amount, from its payer and from nobody else.
pub proof fn law_paid_is_the_sum(a: Seq<Payment>, b: Seq<Payment>, payment: Payment, who: Address)
    ensures
        paid(a + b) == paid(a) + paid(b),
        paid(seq![payment]) == payment.amount,
        paid(Seq::empty()) == 0,
        paid_by(a + b, who) == paid_by(a, who) + paid_by(b, who),
        paid_by(seq![payment], payment.payer) == payment.amount,
        who != payment.payer ==> paid_by(seq![payment], who) == 0,
        paid_by(Seq::empty(), who) == 0,
    decreases b.len(),
{
    assert(seq![payment].drop_last().len() == 0);
    assert(paid(seq![payment].drop_last()) == 0);
    assert(paid_by(seq![payment].drop_last(), who) == 0);
    assert(paid_by(seq![payment].drop_last(), payment.payer) == 0);
    if b.len() == 0 {
        assert(a + b == a);
    } else {
        assert((a + b).drop_last() == a + b.drop_last());
        law_paid_is_the_sum(a, b.drop_last(), payment, who);
    }
}

/// The payers are those who made a payment, each once, in the order of their first payments: of
/// two payers, the earlier one has a payment before any of the later one's.
pub proof fn law_payers_are_those_who_paid(payments: Seq<Payment>, who: Address)
    ensures
        payers(payments).no_duplicates(),
        payers(payments).contains(who) <==> exists|i: int|
            0 <= i < payments.len() && (#[trigger] payments[i]).payer == who,
        forall|i: int, j: int|
            0 <= i < j < payers(payments).len() ==> exists|m: int|
                0 <= m < payments.len() && (#[trigger] payments[m]).payer
                    == #[trigger] payers(payments)[i] && forall|n: int|
                    0 <= n <= m ==> (#[trigger] payments[n]).payer != #[trigger] payers(
                        payments,
                    )[j],
{
    lemma_payers(payments);
    if payers(payments).contains(who) {
        let j = choose|j: int| 0 <= j < payers(payments).len() && payers(payments)[j] == who;
        assert(payers(payments)[j] == who);
    }
    assert forall|i: int, j: int| 0 <= i < j < payers(payments).len() implies exists|m: int|
        0 <= m < payments.len() && (#[trigger] payments[m]).payer == #[trigger] payers(payments)[i]
            && forall|n: int|
            0 <= n <= m ==> (#[trigger] payments[n]).payer != #[trigger] payers(payments)[j] by {
        lemma_payers_in_order(payments, i, j);
    }
}

/// Of two payers, the earlier one has a payment before any of the later one's.
proof fn lemma_payers_in_order(payments: Seq<Payment>, i: int, j: int)
    requires
        0 <= i < j < payers(payments).len(),
    ensures
        exists|m: int|
            0 <= m < payments.len() && (#[trigger] payments[m]).payer == payers(payments)[i]
                && forall|n: int|
                0 <= n <= m ==> (#[trigger] payments[n]).payer != payers(payments)[j],
    decreases payments.len(),
{
    let rest = payments.drop_last();
    let earlier = payers(rest);
    lemma_payers(rest);
    if j < earlier.len() {
        lemma_payers_in_order(rest, i, j);
        let m = choose|m: int|
            0 <= m < rest.len() && (#[trigger] rest[m]).payer == earlier[i] && forall|n: int|
                0 <= n <= m ==> (#[trigger] rest[n]).payer != earlier[j];
        assert forall|n: int| 0 <= n <= m implies (#[trigger] payments[n]).payer != payers(
            payments,
        )[j] by {
            assert(payments[n] == rest[n]);
        }
        assert(payments[m].payer == payers(payments)[i]);
    } else {
        let m = choose|m: int| 0 <= m < rest.len() && (#[trigger] rest[m]).payer == earlier[i];
        assert forall|n: int| 0 <= n <= m implies (#[trigger] payments[n]).payer != payers(
            payments,
        )[j] by {
            assert(payments[n] == rest[n]);
            assert(earlier.contains(rest[n].payer));
        }
        assert(payments[m].payer == payers(payments)[i]);
    }
}

// ---------------------------------------------------------------------------
// Records
// ---------------------------------------------------------------------------
/// An invoice is valid if and only if each recipient has one positive amount, there is a
/// recipient, the sum is in range, every payment is positive, what is funded is what was paid and
/// no more than the sum, and all of it is there if the invoice is released.
pub proof fn law_valid_invoices(invoice: InvoiceView)
    ensures
        invoice.wf() <==> {
            &&& invoice.recipients.len() == invoice.amounts.len()
            &&& invoice.recipients.len() > 0
            &&& forall|i: int|
                0 <= i < invoice.amounts.len() ==> #[trigger] invoice.amounts[i] > 0
            &&& total(invoice.amounts) <= i128::MAX
            &&& forall|i: int|
                0 <= i < invoice.payments.len() ==> (#[trigger] invoice.payments[i]).amount > 0
            &&& invoice.funded == paid(invoice.payments)
            &&& invoice.funded <= total(invoice.amounts)
            &&& invoice.status == InvoiceStatus::Released ==> invoice.funded == total(
                invoice.amounts,
            )
        },
        invoice.total() == total(invoice.amounts),
{
}

/// The parameters of a subscription are valid if and only if they make a valid invoice and there
/// are one to eleven months to come. A template is valid if and only if each recipient has one
/// positive amount and there is a recipient.
pub proof fn law_valid_schedules(params: SubscriptionView, template: TemplateView)
    ensures
        params.wf() <==> {
            &&& params.recipients.len() == params.amounts.len()
            &&& params.recipients.len() > 0
            &&& forall|i: int| 0 <= i < params.amounts.len() ==> #[trigger] params.amounts[i] > 0
            &&& total(params.amounts) <= i128::MAX
            &&& 1 <= params.remaining <= 11
        },
        template.wf() <==> {
            &&& template.recipients.len() == template.amounts.len()
            &&& template.recipients.len() > 0
            &&& forall|i: int|
                0 <= i < template.amounts.len() ==> #[trigger] template.amounts[i] > 0
        },
{
}

/// A state is valid if and only if every record is valid and kept under a number that was given
/// out.
pub proof fn law_valid_states(s: State)
    ensures
        s.wf() <==> {
            &&& forall|id: u64| #[trigger]
                s.invoices.contains_key(id) ==> 1 <= id <= s.counter && s.invoices[id].wf()
            &&& forall|id: u64| #[trigger] s.logs.contains_key(id) ==> 1 <= id <= s.counter
            &&& forall|id: u64| #[trigger]
                s.subscriptions.contains_key(id) ==> 1 <= id <= s.counter
                    && s.subscriptions[id].wf()
            &&& forall|key: (Address, Seq<char>)| #[trigger]
                s.templates.contains_key(key) ==> s.templates[key].wf()
        },
{
    if s.wf() {
        assert forall|id: u64| #[trigger] s.invoices.contains_key(id) implies 1 <= id <= s.counter
            && s.invoices[id].wf() by {
            assert(s.known(id));
        }
        assert forall|id: u64| #[trigger] s.logs.contains_key(id) implies 1 <= id <= s.counter by {
            assert(s.known(id));
        }
        assert forall|id: u64| #[trigger] s.subscriptions.contains_key(id) implies 1 <= id
            <= s.counter && s.subscriptions[id].wf() by {
            assert(s.known(id));
        }
    }
}

/// The parts of a state as the contracts name them: the audit log of an invoice is what is kept
/// for it, or empty; the next number is one more than the last; a known number is one that was
/// given out; to hold an invoice and to log a line change that and nothing else.
pub proof fn law_parts_of_a_state(s: State, id: u64, invoice: InvoiceView, line: AuditEntry)
    ensures
        s.logs.contains_key(id) ==> s.log(id) == s.logs[id],
        !s.logs.contains_key(id) ==> s.log(id).len() == 0,
        s.counter < u64::MAX ==> s.next_id() == s.counter + 1,
        s.known(id) <==> 1 <= id <= s.counter,
        s.holding(id, invoice).invoices == s.invoices.insert(id, invoice),
        s.holding(id, invoice).counter == s.counter,
        s.holding(id, invoice).logs == s.logs,
        s.holding(id, invoice).subscriptions == s.subscriptions,
        s.holding(id, invoice).templates == s.templates,
        s.logging(id, line).logs.contains_key(id),
        s.logging(id, line).logs[id].drop_last() == s.log(id),
        s.logging(id, line).logs[id].len() == s.log(id).len() + 1,
        s.logging(id, line).logs[id].last() == line,
        s.logging(id, line).logs.remove(id) == s.logs.remove(id),
        s.logging(id, line).invoices == s.invoices,
        s.logging(id, line).counter == s.counter,
        s.logging(id, line).subscriptions == s.subscriptions,
        s.logging(id, line).templates == s.templates,
        State::initial().counter == 0,
        !State::initial().invoices.contains_key(id),
        !State::initial().logs.contains_key(id),
        !State::initial().subscriptions.contains_key(id),
        forall|key: (Address, Seq<char>)| !State::initial().templates.contains_key(key),
{
    assert(s.logging(id, line).logs[id].drop_last() =~= s.log(id));
    assert(s.logging(id, line).logs.remove(id) =~= s.logs.remove(id));
}

/// A request is accepted if and only if nothing refuses it, and leads to its outcome.
pub proof fn law_accepted_requests(s: State, ctx: ContextView, request: Request)
    ensures
        accepted(s, ctx, request) <==> refusal(s, ctx, request) is None,
        after(s, ctx, request) == outcome(s, ctx, request).state,
{
}

// ---------------------------------------------------------------------------
// Views
// ---------------------------------------------------------------------------
/// The views of the records leave nothing out and change nothing.
pub proof fn law_records_as_seen(
    invoice: Invoice,
    template: InvoiceTemplate,
    params: SubscriptionParams,
)
    ensures
        invoice@.creator == invoice.creator,
        invoice@.recipients == invoice.recipients@,
        invoice@.amounts == invoice.amounts@,
        invoice@.token == invoice.token,
        invoice@.deadline == invoice.deadline,
        invoice@.funded == invoice.funded,
        invoice@.status == invoice.status,
        invoice@.payments == invoice.payments@,
        template@.recipients == template.recipients@,
        template@.amounts == template.amounts@,
        template@.token == template.token,
        params@.creator == params.creator,
        params@.recipients == params.recipients@,
        params@.amounts == params.amounts@,
        params@.token == params.token,
        params@.remaining == params.remaining,
{
}

/// The view of a contract has exactly its records: each under the number that it is kept under, and
/// each template under its creator and name. A valid contract has valid records and no template
/// twice.
pub proof fn law_contract_as_seen(
    contract: SplitContract,
    id: u64,
    creator: Address,
    name: Seq<char>,
)
    ensures
        contract@.counter == contract.counter,
        contract@.invoices.contains_key(id) == contract.invoices@.contains_key(id),
        contract.invoices@.contains_key(id) ==> contract@.invoices[id] == contract.invoices@[id]@,
        contract@.logs.contains_key(id) == contract.logs@.contains_key(id),
        contract.logs@.contains_key(id) ==> contract@.logs[id] == contract.logs@[id]@,
        contract@.subscriptions.contains_key(id) == contract.subscriptions@.contains_key(id),
        contract.subscriptions@.contains_key(id) ==> contract@.subscriptions[id]
            == contract.subscriptions@[id]@,
        contract@.templates.contains_key((creator, name)) <==> exists|i: int|
            0 <= i < contract.templates@.len() && (#[trigger] contract.templates@[i]).creator
                == creator && contract.templates@[i].name@ == name,
        contract.wf() ==> forall|i: int|
            0 <= i < contract.templates@.len() && (#[trigger] contract.templates@[i]).creator
                == creator && contract.templates@[i].name@ == name
                ==> contract@.templates[(creator, name)] == contract.templates@[i].template@,
        contract.wf() <==> contract@.wf() && forall|i: int, j: int|
            0 <= i < j < contract.templates@.len() ==> !((#[trigger] contract.templates@[i]).creator
                == (#[trigger] contract.templates@[j]).creator && contract.templates@[i].name@
                == contract.templates@[j].name@),
{
    let entries = contract.templates@;
    let key = (creator, name);
    assert forall|i: int|
        0 <= i < entries.len() && (#[trigger] entries[i]).creator == creator && entries[i].name@
            == name implies saved_at(entries, key, i) by {
        assert(template_key(entries[i]) == key);
    }
    if contract@.templates.contains_key(key) {
        let i = choose|i: int| saved_at(entries, key, i);
        assert(entries[i].creator == creator && entries[i].name@ == name);
    }
    if contract.wf() {
        assert forall|i: int|
            0 <= i < entries.len() && (#[trigger] entries[i]).creator == creator
                && entries[i].name@ == name implies contract@.templates[key]
            == entries[i].template@ by {
            lemma_saved(entries, key, i);
        }
        assert forall|i: int, j: int| 0 <= i < j < entries.len() implies !((
        #[trigger] entries[i]).creator == (#[trigger] entries[j]).creator && entries[i].name@
            == entries[j].name@) by {
            assert(template_key(entries[i]) != template_key(entries[j]));
        }
    }
}

/// The view of a context has its time, its contract, those who authorized it, and its effects in
/// order, with nothing left out; asking for more appends it.
pub proof fn law_context_as_seen(ctx: Context, view: ContextView, more: Seq<EffectView>)
    ensures
        ctx@.timestamp == ctx.timestamp,
        ctx@.contract == ctx.contract,
        ctx@.authorized == ctx.authorized@,
        ctx@.effects.len() == ctx.effects@.len(),
        forall|i: int|
            0 <= i < ctx.effects@.len() ==> #[trigger] ctx@.effects[i] == ctx.effects@[i]@,
        view.asking(more).effects == view.effects + more,
        view.asking(more).timestamp == view.timestamp,
        view.asking(more).contract == view.contract,
        view.asking(more).authorized == view.authorized,
{
}

/// The view of an effect is the same effect with the same values.
pub proof fn law_effect_as_seen(effect: Effect)
    ensures
        match effect {
            Effect::Transfer(t) => effect@ == EffectView::Transfer(t),
            Effect::InvoiceCreated { id, creator, total } => effect@
                == (EffectView::InvoiceCreated { id, creator, total: total as int }),
            Effect::PaymentReceived { id, payer, amount } => effect@
                == (EffectView::PaymentReceived { id, payer, amount: amount as int }),
            Effect::InvoiceReleased { id, recipients } => effect@ == (EffectView::InvoiceReleased {
                id,
                recipients: recipients@,
            }),
            Effect::InvoiceRefunded { id } => effect@ == (EffectView::InvoiceRefunded { id }),
        },
{
}

// ---------------------------------------------------------------------------
// Completion proofs
// ---------------------------------------------------------------------------
/// A completion proof is given for exactly the invoices that exist and are released or refunded,
/// whoever paid for them. Any other invoice is refused as not finalized, and any other number as
/// not found.
pub proof fn law_when_completion_proofs_are_given(s: State, id: u64)
    ensures
        ({
            let answer = completion_refusal(s, id);
            let found = s.invoices.contains_key(id);
            let status = s.invoices[id].status;
            let closed = status == InvoiceStatus::Released || status == InvoiceStatus::Refunded;
            &&& answer is None <==> found && closed
            &&& answer == Some(SplitError::InvoiceNotFound) <==> !found
            &&& answer == Some(SplitError::NotFinalized) <==> found && !closed
        }),
{
}

/// Byte `i` of a number is its digit of weight 256 to the power of `i`.
pub proof fn law_bytes_are_digits(value: nat, n: nat)
    ensures
        le_bytes(value, n).len() == n,
        forall|i: int|
            0 <= i < n ==> #[trigger] le_bytes(value, n)[i] == (value as int / pow(256, i as nat))
                % 256,
    decreases n,
{
    lemma_le_bytes_len(value, n);
    if n > 0 {
        let rest = le_bytes(value / 256, (n - 1) as nat);
        law_bytes_are_digits(value / 256, (n - 1) as nat);
        assert forall|i: int| 0 <= i < n implies #[trigger] le_bytes(value, n)[i] == (value as int
            / pow(256, i as nat)) % 256 by {
            if i == 0 {
                lemma_pow0(256);
            } else {
                assert(le_bytes(value, n)[i] == rest[i - 1]);
                lemma_pow1(256);
                lemma_pow_adds(256, 1, (i - 1) as nat);
                lemma_pow_positive(256, (i - 1) as nat);
                lemma_div_denominator(value as int, 256, pow(256, (i - 1) as nat));
            }
        }
    }
}

/// A completion message has 33 bytes: eight for the number of the invoice, sixteen for what was
/// funded in two's complement, eight for the deadline, each least significant byte first, and one
/// for the status.
pub proof fn law_what_a_completion_message_says(id: u64, invoice: InvoiceView)
    requires
        i128::MIN <= invoice.funded <= i128::MAX,
    ensures
        ({
            let message = completion_message(id, invoice);
            let funded = if invoice.funded >= 0 {
                invoice.funded
            } else {
                invoice.funded + 0x1_0000_0000_0000_0000_0000_0000_0000_0000int
            };
            &&& message.len() == 33
            &&& forall|i: int|
                0 <= i < 8 ==> #[trigger] message[i] == (id as int / pow(256, i as nat)) % 256
            &&& forall|i: int|
                0 <= i < 16 ==> #[trigger] message[8 + i] == (funded / pow(256, i as nat)) % 256
            &&& forall|i: int|
                0 <= i < 8 ==> #[trigger] message[24 + i] == (invoice.deadline as int / pow(
                    256,
                    i as nat,
                )) % 256
            &&& message[32] == match invoice.status {
                InvoiceStatus::Pending => 0u8,
                InvoiceStatus::Released => 1u8,
                InvoiceStatus::Refunded => 2u8,
                InvoiceStatus::Cancelled => 3u8,
            }
        }),
{
    let message = completion_message(id, invoice);
    let number = le_bytes(id as nat, 8);
    let funded = le_bytes(twos_complement(invoice.funded), 16);
    let deadline = le_bytes(invoice.deadline as nat, 8);
    law_bytes_are_digits(id as nat, 8);
    law_bytes_are_digits(twos_complement(invoice.funded), 16);
    law_bytes_are_digits(invoice.deadline as nat, 8);
    assert forall|i: int| 0 <= i < 8 implies #[trigger] message[i] == (id as int / pow(
        256,
        i as nat,
    )) % 256 by {
        assert(message[i] == number[i]);
    }
    assert forall|i: int| 0 <= i < 16 implies #[trigger] message[8 + i] == funded[i] by {}
    assert forall|i: int| 0 <= i < 8 implies #[trigger] message[24 + i] == deadline[i] by {}
}

} // verus!
