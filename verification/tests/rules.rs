//! The rules of the contract on plain values: each refusal, and each effect in order.
use split::{
    get_audit_log, Address, AddressKind, AuditAction, AuditEntry, Context, Effect, Invoice,
    InvoiceStatus, Payment, SplitContract, SplitError, Transfer,
};

const MONTH: u64 = 2_592_000;

const CREATOR: u128 = 1;
const ANN: u128 = 2;
const BEN: u128 = 3;
const CLEO: u128 = 4;
const DAN: u128 = 5;

fn account(n: u128) -> Address {
    Address { kind: AddressKind::Account, high: 0, low: n }
}

fn token() -> Address {
    Address { kind: AddressKind::Contract, high: 7, low: 7 }
}

fn this_contract() -> Address {
    Address { kind: AddressKind::Contract, high: 9, low: 9 }
}

/// A call at `now` that these accounts have authorized.
fn call(now: u64, who: &[u128]) -> Context {
    Context::new(now, this_contract(), who.iter().map(|n| account(*n)).collect())
}

fn accounts(who: &[u128]) -> Vec<Address> {
    who.iter().map(|n| account(*n)).collect()
}

fn transfer(from: Address, to: Address, amount: i128) -> Effect {
    Effect::Transfer(Transfer { token: token(), from, to, amount })
}

fn line(action: AuditAction, actor: Address, timestamp: u64) -> AuditEntry {
    AuditEntry { action, actor, timestamp }
}

/// An invoice of the creator's, made at time 1000.
fn create(split: &mut SplitContract, recipients: &[u128], amounts: &[i128], deadline: u64) -> u64 {
    split
        .create_invoice(
            &mut call(1_000, &[CREATOR]),
            account(CREATOR),
            accounts(recipients),
            amounts.to_vec(),
            token(),
            deadline,
        )
        .unwrap()
}

fn pay(split: &mut SplitContract, now: u64, payer: u128, id: u64, amount: i128) -> Vec<Effect> {
    let mut ctx = call(now, &[payer]);
    split.pay(&mut ctx, account(payer), id, amount, 0).unwrap();
    ctx.effects
}

/// A pending invoice of 100 units for Ann, toward which Ben has paid so much.
fn stored(funded: i128) -> Invoice {
    Invoice {
        creator: account(CREATOR),
        recipients: accounts(&[ANN]),
        amounts: vec![100],
        token: token(),
        deadline: 2_000,
        funded,
        status: InvoiceStatus::Pending,
        payments: if funded > 0 {
            vec![Payment { payer: account(BEN), amount: funded }]
        } else {
            vec![]
        },
    }
}

// ---------------------------------------------------------------------------
// Creating
// ---------------------------------------------------------------------------

#[test]
fn a_created_invoice_is_announced() {
    let mut split = SplitContract::new();
    let mut ctx = call(1_000, &[CREATOR]);
    let id = split
        .create_invoice(
            &mut ctx,
            account(CREATOR),
            accounts(&[ANN, BEN]),
            vec![10, 32],
            token(),
            1_001,
        )
        .unwrap();
    assert_eq!(id, 1);
    assert_eq!(
        ctx.effects,
        vec![Effect::InvoiceCreated { id: 1, creator: account(CREATOR), total: 42 }]
    );
    assert_eq!(
        split.get_invoice(1).unwrap(),
        Invoice {
            creator: account(CREATOR),
            recipients: accounts(&[ANN, BEN]),
            amounts: vec![10, 32],
            token: token(),
            deadline: 1_001,
            funded: 0,
            status: InvoiceStatus::Pending,
            payments: vec![],
        }
    );
    assert_eq!(split.get_audit_log(1), vec![]);
}

#[test]
fn invalid_terms_are_refused_in_order() {
    let mut split = SplitContract::new();
    let mut attempt = |who: &[u128], recipients: &[u128], amounts: &[i128], deadline: u64| {
        let mut ctx = call(1_000, who);
        let answer = split.create_invoice(
            &mut ctx,
            account(CREATOR),
            accounts(recipients),
            amounts.to_vec(),
            token(),
            deadline,
        );
        assert_eq!(ctx.effects, vec![]);
        assert_eq!(split.counter, 0);
        answer
    };
    assert_eq!(attempt(&[ANN], &[], &[], 0), Err(SplitError::NotAuthorized));
    assert_eq!(attempt(&[CREATOR], &[ANN], &[], 0), Err(SplitError::LengthMismatch));
    assert_eq!(attempt(&[CREATOR], &[], &[], 0), Err(SplitError::NoRecipients));
    assert_eq!(attempt(&[CREATOR], &[ANN], &[0], 1_000), Err(SplitError::DeadlineNotInFuture));
    assert_eq!(
        attempt(&[CREATOR], &[ANN, BEN], &[5, 0], 1_001),
        Err(SplitError::AmountNotPositive)
    );
    assert_eq!(
        attempt(&[CREATOR], &[ANN, BEN], &[-5, 6], 1_001),
        Err(SplitError::AmountNotPositive)
    );
    assert_eq!(
        attempt(&[CREATOR], &[ANN, BEN], &[i128::MAX, 1], 1_001),
        Err(SplitError::Overflow)
    );
}

#[test]
fn the_last_identifier_is_given_out_once() {
    let mut split = SplitContract::with_counter(u64::MAX - 1);
    assert_eq!(create(&mut split, &[ANN], &[i128::MAX], 2_000), u64::MAX);
    let answer = split.create_invoice(
        &mut call(1_000, &[CREATOR]),
        account(CREATOR),
        accounts(&[ANN]),
        vec![1],
        token(),
        2_000,
    );
    assert_eq!(answer, Err(SplitError::Overflow));
    assert_eq!(split.get_invoice(u64::MAX).unwrap().amounts, vec![i128::MAX]);
}

#[test]
fn identifiers_count_up() {
    let mut split = SplitContract::new();
    for expected in 1..=5 {
        assert_eq!(create(&mut split, &[ANN], &[10], 2_000), expected);
    }
    // A refused call takes no identifier.
    let refused = split.create_invoice(
        &mut call(1_000, &[]),
        account(CREATOR),
        accounts(&[ANN]),
        vec![10],
        token(),
        2_000,
    );
    assert_eq!(refused, Err(SplitError::NotAuthorized));
    assert_eq!(create(&mut split, &[ANN], &[10], 2_000), 6);
}

// ---------------------------------------------------------------------------
// Subscriptions
// ---------------------------------------------------------------------------

fn subscribe(split: &mut SplitContract, now: u64, months: u32) -> Result<u64, SplitError> {
    split.create_subscription(
        &mut call(now, &[CREATOR]),
        account(CREATOR),
        accounts(&[ANN, BEN]),
        vec![60, 40],
        token(),
        months,
    )
}

#[test]
fn a_subscription_runs_its_months() {
    let mut split = SplitContract::new();
    assert_eq!(subscribe(&mut split, 1_000, 3), Ok(1));
    assert_eq!(split.get_invoice(1).unwrap().deadline, 1_000 + MONTH);
    assert_eq!(split.get_invoice(2), Err(SplitError::InvoiceNotFound));

    // Part of the money does not bring the next invoice.
    pay(&mut split, 2_000, CLEO, 1, 99);
    assert_eq!(split.get_invoice(2), Err(SplitError::InvoiceNotFound));
    let effects = pay(&mut split, 3_000, DAN, 1, 1);
    assert_eq!(
        effects,
        vec![
            transfer(account(DAN), this_contract(), 1),
            Effect::PaymentReceived { id: 1, payer: account(DAN), amount: 1 },
            transfer(this_contract(), account(ANN), 60),
            transfer(this_contract(), account(BEN), 40),
            Effect::InvoiceReleased { id: 1, recipients: accounts(&[ANN, BEN]) },
            Effect::InvoiceCreated { id: 2, creator: account(CREATOR), total: 100 },
        ]
    );
    let second = split.get_invoice(2).unwrap();
    assert_eq!(second.deadline, 3_000 + MONTH);
    assert_eq!(second.recipients, accounts(&[ANN, BEN]));
    assert_eq!(second.amounts, vec![60, 40]);
    assert_eq!(second.funded, 0);

    pay(&mut split, 4_000, CLEO, 2, 100);
    assert_eq!(split.get_invoice(3).unwrap().deadline, 4_000 + MONTH);

    // The third month is the last.
    pay(&mut split, 5_000, CLEO, 3, 100);
    assert_eq!(split.get_invoice(3).unwrap().status, InvoiceStatus::Released);
    assert_eq!(split.get_invoice(4), Err(SplitError::InvoiceNotFound));
    assert_eq!(split.counter, 3);
    assert_eq!(split.subscriptions.len(), 0);
}

#[test]
fn a_subscription_of_one_month_is_one_invoice() {
    let mut split = SplitContract::new();
    assert_eq!(subscribe(&mut split, 1_000, 1), Ok(1));
    pay(&mut split, 2_000, CLEO, 1, 100);
    assert_eq!(split.counter, 1);
}

#[test]
fn twelve_months_make_twelve_invoices() {
    let mut split = SplitContract::new();
    assert_eq!(subscribe(&mut split, 1_000, 12), Ok(1));
    let mut id = 1;
    while split.get_invoice(id).is_ok() {
        pay(&mut split, 1_000 + id, CLEO, id, 100);
        id += 1;
    }
    assert_eq!(split.counter, 12);
}

#[test]
fn invalid_subscriptions_are_refused() {
    let mut split = SplitContract::new();
    assert_eq!(subscribe(&mut split, 1_000, 0), Err(SplitError::MonthsOutOfRange));
    assert_eq!(subscribe(&mut split, 1_000, 13), Err(SplitError::MonthsOutOfRange));
    assert_eq!(subscribe(&mut split, u64::MAX - MONTH + 1, 2), Err(SplitError::Overflow));
    let mut attempt = |who: &[u128], recipients: &[u128], amounts: &[i128]| {
        split.create_subscription(
            &mut call(1_000, who),
            account(CREATOR),
            accounts(recipients),
            amounts.to_vec(),
            token(),
            0,
        )
    };
    assert_eq!(attempt(&[], &[ANN], &[1]), Err(SplitError::NotAuthorized));
    assert_eq!(attempt(&[CREATOR], &[ANN], &[1, 2]), Err(SplitError::LengthMismatch));
    assert_eq!(attempt(&[CREATOR], &[], &[]), Err(SplitError::NoRecipients));
    let answer = split.create_subscription(
        &mut call(1_000, &[CREATOR]),
        account(CREATOR),
        accounts(&[ANN]),
        vec![-1],
        token(),
        2,
    );
    assert_eq!(answer, Err(SplitError::AmountNotPositive));
    assert_eq!(split.counter, 0);
}

#[test]
fn a_refund_or_a_cancellation_brings_no_next_month() {
    let mut split = SplitContract::new();
    subscribe(&mut split, 1_000, 2).unwrap();
    subscribe(&mut split, 1_000, 2).unwrap();
    split.refund(&mut call(1_001 + MONTH, &[]), 1).unwrap();
    split.cancel_invoice(&call(2_000, &[CREATOR]), account(CREATOR), 2).unwrap();
    assert_eq!(split.counter, 2);
}

#[test]
fn a_payment_that_needs_an_impossible_next_month_is_refused() {
    let late = u64::MAX - MONTH;
    let mut split = SplitContract::new();
    assert_eq!(subscribe(&mut split, late, 2), Ok(1));
    let mut ctx = call(late + 1, &[CLEO]);
    assert_eq!(split.pay(&mut ctx, account(CLEO), 1, 100, 0), Err(SplitError::Overflow));
    assert_eq!(ctx.effects, vec![]);
    // A payment that does not complete the invoice is taken.
    assert_eq!(split.pay(&mut ctx, account(CLEO), 1, 99, 0), Ok(()));
}

// ---------------------------------------------------------------------------
// Paying
// ---------------------------------------------------------------------------

#[test]
fn a_partial_payment_asks_for_one_transfer() {
    let mut split = SplitContract::new();
    let id = create(&mut split, &[ANN], &[100], 2_000);
    let effects = pay(&mut split, 2_000, BEN, id, 30);
    assert_eq!(
        effects,
        vec![
            transfer(account(BEN), this_contract(), 30),
            Effect::PaymentReceived { id, payer: account(BEN), amount: 30 },
        ]
    );
    let invoice = split.get_invoice(id).unwrap();
    assert_eq!(invoice.funded, 30);
    assert_eq!(invoice.status, InvoiceStatus::Pending);
    assert_eq!(invoice.payments, vec![Payment { payer: account(BEN), amount: 30 }]);
    assert_eq!(split.get_audit_log(id), vec![line(AuditAction::Pay, account(BEN), 2_000)]);
}

#[test]
fn a_completing_payment_with_a_tip_asks_for_everything_at_once() {
    let mut split = SplitContract::new();
    let id = create(&mut split, &[ANN, BEN], &[100, 50], 2_000);
    let mut ctx = call(1_500, &[CLEO]);
    split.pay(&mut ctx, account(CLEO), id, 150, 7).unwrap();
    assert_eq!(
        ctx.effects,
        vec![
            transfer(account(CLEO), this_contract(), 150),
            transfer(account(CLEO), account(ANN), 3),
            transfer(account(CLEO), account(BEN), 3),
            Effect::PaymentReceived { id, payer: account(CLEO), amount: 150 },
            transfer(this_contract(), account(ANN), 100),
            transfer(this_contract(), account(BEN), 50),
            Effect::InvoiceReleased { id, recipients: accounts(&[ANN, BEN]) },
        ]
    );
    // A tip is no part of the invoice.
    let invoice = split.get_invoice(id).unwrap();
    assert_eq!(invoice.funded, 150);
    assert_eq!(invoice.status, InvoiceStatus::Released);
    assert_eq!(
        split.get_audit_log(id),
        vec![
            line(AuditAction::Pay, account(CLEO), 1_500),
            line(AuditAction::Release, account(CREATOR), 1_500),
        ]
    );
}

#[test]
fn invalid_payments_are_refused_in_order() {
    let mut split = SplitContract::new();
    let id = create(&mut split, &[ANN], &[100], 2_000);
    pay(&mut split, 1_500, BEN, id, 40);
    let mut attempt = |now: u64, who: &[u128], id: u64, amount: i128, tip: i128| {
        let mut ctx = call(now, who);
        let answer = split.pay(&mut ctx, account(BEN), id, amount, tip);
        assert_eq!(ctx.effects, vec![]);
        answer
    };
    assert_eq!(attempt(2_001, &[CLEO], 9, 0, -1), Err(SplitError::NotAuthorized));
    assert_eq!(attempt(2_001, &[BEN], 9, 0, -1), Err(SplitError::InvoiceNotFound));
    assert_eq!(attempt(2_001, &[BEN], id, 0, -1), Err(SplitError::DeadlinePassed));
    assert_eq!(attempt(2_000, &[BEN], id, 0, -1), Err(SplitError::PaymentNotPositive));
    assert_eq!(attempt(2_000, &[BEN], id, -7, 0), Err(SplitError::PaymentNotPositive));
    assert_eq!(attempt(2_000, &[BEN], id, 61, -1), Err(SplitError::NegativeTip));
    assert_eq!(attempt(2_000, &[BEN], id, 61, 0), Err(SplitError::ExceedsRemaining));
    assert_eq!(split.get_invoice(id).unwrap().funded, 40);
}

#[test]
fn the_largest_amounts_can_be_paid() {
    let mut split = SplitContract::new();
    let id = create(&mut split, &[ANN, BEN], &[i128::MAX - 1, 1], 2_000);
    pay(&mut split, 1_500, CLEO, id, i128::MAX - 1);
    pay(&mut split, 1_500, DAN, id, 1);
    let invoice = split.get_invoice(id).unwrap();
    assert_eq!(invoice.funded, i128::MAX);
    assert_eq!(invoice.status, InvoiceStatus::Released);
}

#[test]
fn contributions_are_summed_by_payer() {
    let mut split = SplitContract::new();
    let id = create(&mut split, &[ANN], &[1_000], 2_000);
    pay(&mut split, 1_100, BEN, id, 100);
    pay(&mut split, 1_200, CLEO, id, 20);
    pay(&mut split, 1_300, BEN, id, 3);
    assert_eq!(split.get_payer_total(id, account(BEN)), Ok(103));
    assert_eq!(split.get_payer_total(id, account(CLEO)), Ok(20));
    assert_eq!(split.get_payer_total(id, account(DAN)), Ok(0));
    assert_eq!(split.get_payer_total(2, account(BEN)), Err(SplitError::InvoiceNotFound));
    assert_eq!(split.get_invoice(id).unwrap().funded, 123);
}

#[test]
fn a_payment_leaves_other_invoices_alone() {
    let mut split = SplitContract::new();
    let first = create(&mut split, &[ANN], &[100], 2_000);
    let second = create(&mut split, &[ANN], &[100], 2_000);
    let before = split.get_invoice(second).unwrap();
    pay(&mut split, 1_500, BEN, first, 100);
    assert_eq!(split.get_invoice(second).unwrap(), before);
    assert_eq!(split.get_audit_log(second), vec![]);
}

// ---------------------------------------------------------------------------
// Settling
// ---------------------------------------------------------------------------

#[test]
fn a_released_invoice_never_changes_again() {
    let mut split = SplitContract::new();
    let id = create(&mut split, &[ANN], &[100], 2_000);
    pay(&mut split, 1_500, BEN, id, 100);
    let before = split.get_invoice(id).unwrap();

    let mut ctx = call(3_000, &[BEN, CREATOR]);
    let creator = account(CREATOR);
    assert_eq!(split.pay(&mut ctx, account(BEN), id, 1, 0), Err(SplitError::NotPending));
    assert_eq!(split.release(&mut ctx, id), Err(SplitError::NotPending));
    assert_eq!(split.refund(&mut ctx, id), Err(SplitError::NotPending));
    assert_eq!(split.cancel_invoice(&ctx, creator, id), Err(SplitError::NotPending));
    assert_eq!(split.extend_deadline(&ctx, creator, id, 9_999), Err(SplitError::NotPending));
    assert_eq!(ctx.effects, vec![]);
    assert_eq!(split.get_invoice(id).unwrap(), before);
    assert_eq!(split.get_audit_log(id).len(), 2);
}

#[test]
fn release_needs_all_of_the_money() {
    let mut split = SplitContract::new();
    let id = create(&mut split, &[ANN], &[100], 2_000);
    pay(&mut split, 1_500, BEN, id, 99);
    let mut ctx = call(1_600, &[]);
    assert_eq!(split.release(&mut ctx, id), Err(SplitError::NotFullyFunded));
    assert_eq!(split.release(&mut ctx, 2), Err(SplitError::InvoiceNotFound));
    assert_eq!(ctx.effects, vec![]);
}

#[test]
fn anyone_can_release_a_funded_invoice() {
    let mut split = SplitContract::with_counter(1);
    assert!(split.restore_invoice(1, stored(100)));
    let mut ctx = call(5_000, &[]);
    // It is fully funded, so there is nothing to refund.
    assert_eq!(split.refund(&mut ctx, 1), Err(SplitError::FullyFunded));
    assert_eq!(split.release(&mut ctx, 1), Ok(()));
    assert_eq!(
        ctx.effects,
        vec![
            transfer(this_contract(), account(ANN), 100),
            Effect::InvoiceReleased { id: 1, recipients: accounts(&[ANN]) },
        ]
    );
    assert_eq!(split.get_invoice(1).unwrap().status, InvoiceStatus::Released);
    assert_eq!(
        get_audit_log(&split, 1),
        vec![line(AuditAction::Release, this_contract(), 5_000)]
    );
}

#[test]
fn a_refund_pays_each_payer_once_in_order_of_first_payment() {
    let mut split = SplitContract::new();
    let id = create(&mut split, &[ANN], &[1_000], 2_000);
    pay(&mut split, 1_100, BEN, id, 100);
    pay(&mut split, 1_200, CLEO, id, 20);
    pay(&mut split, 1_300, BEN, id, 3);
    pay(&mut split, 1_400, DAN, id, 5);

    let mut ctx = call(2_000, &[]);
    assert_eq!(split.refund(&mut ctx, id), Err(SplitError::DeadlineNotPassed));
    assert_eq!(split.refund(&mut ctx, 2), Err(SplitError::InvoiceNotFound));
    assert_eq!(ctx.effects, vec![]);

    let mut ctx = call(2_001, &[]);
    assert_eq!(split.refund(&mut ctx, id), Ok(()));
    assert_eq!(
        ctx.effects,
        vec![
            transfer(this_contract(), account(BEN), 103),
            transfer(this_contract(), account(CLEO), 20),
            transfer(this_contract(), account(DAN), 5),
            Effect::InvoiceRefunded { id },
        ]
    );
    assert_eq!(split.get_invoice(id).unwrap().status, InvoiceStatus::Refunded);
    assert_eq!(
        split.get_audit_log(id).last(),
        Some(&line(AuditAction::Refund, this_contract(), 2_001))
    );
    // What was paid stays on record.
    assert_eq!(split.get_payer_total(id, account(BEN)), Ok(103));
}

#[test]
fn an_invoice_takes_payments_or_a_refund_but_not_both() {
    let mut split = SplitContract::new();
    for now in [1_999, 2_000, 2_001] {
        let id = create(&mut split, &[ANN], &[100], 2_000);
        let paid = split.pay(&mut call(now, &[BEN]), account(BEN), id, 1, 0).is_ok();
        let refunded = split.refund(&mut call(now, &[]), id).is_ok();
        assert_eq!(paid, now <= 2_000);
        assert_eq!(refunded, now > 2_000);
    }
}

#[test]
fn only_the_creator_cancels_and_only_before_payments() {
    let mut split = SplitContract::new();
    let id = create(&mut split, &[ANN], &[100], 2_000);
    let paid_into = create(&mut split, &[ANN], &[100], 2_000);
    pay(&mut split, 1_500, BEN, paid_into, 1);

    let ctx = call(1_600, &[CREATOR, ANN]);
    assert_eq!(split.cancel_invoice(&ctx, account(BEN), id), Err(SplitError::NotAuthorized));
    assert_eq!(split.cancel_invoice(&ctx, account(ANN), 9), Err(SplitError::InvoiceNotFound));
    assert_eq!(split.cancel_invoice(&ctx, account(ANN), id), Err(SplitError::OnlyCreatorCancels));
    assert_eq!(
        split.cancel_invoice(&ctx, account(CREATOR), paid_into),
        Err(SplitError::PaymentsStarted)
    );
    assert_eq!(split.cancel_invoice(&ctx, account(CREATOR), id), Ok(()));
    assert_eq!(split.get_invoice(id).unwrap().status, InvoiceStatus::Refunded);
    assert_eq!(
        split.get_audit_log(id),
        vec![line(AuditAction::Cancel, account(CREATOR), 1_600)]
    );
}

#[test]
fn only_the_creator_moves_the_deadline() {
    let mut split = SplitContract::new();
    let id = create(&mut split, &[ANN], &[100], 2_000);
    pay(&mut split, 1_500, BEN, id, 1);

    let ctx = call(3_000, &[CREATOR, ANN]);
    let creator = account(CREATOR);
    assert_eq!(
        split.extend_deadline(&ctx, account(BEN), id, 0),
        Err(SplitError::NotAuthorized)
    );
    assert_eq!(split.extend_deadline(&ctx, creator, 9, 0), Err(SplitError::InvoiceNotFound));
    assert_eq!(
        split.extend_deadline(&ctx, account(ANN), id, 0),
        Err(SplitError::OnlyCreatorExtends)
    );
    assert_eq!(
        split.extend_deadline(&ctx, creator, id, 3_000),
        Err(SplitError::NewDeadlineNotInFuture)
    );
    assert_eq!(split.extend_deadline(&ctx, creator, id, 3_001), Ok(()));
    assert_eq!(split.get_invoice(id).unwrap().deadline, 3_001);
    assert_eq!(
        split.get_audit_log(id).last(),
        Some(&line(AuditAction::Extend, creator, 3_000))
    );

    // Payments are taken again until then, and refunds have to wait.
    assert_eq!(split.refund(&mut call(3_001, &[]), id), Err(SplitError::DeadlineNotPassed));
    pay(&mut split, 3_001, BEN, id, 99);
    assert_eq!(split.get_invoice(id).unwrap().status, InvoiceStatus::Released);
}

// ---------------------------------------------------------------------------
// Templates and clones
// ---------------------------------------------------------------------------

fn save(
    split: &mut SplitContract,
    creator: u128,
    name: &str,
    recipients: &[u128],
    amounts: &[i128],
) {
    split
        .save_template(
            &call(1_000, &[creator]),
            account(creator),
            name.to_string(),
            accounts(recipients),
            amounts.to_vec(),
            token(),
        )
        .unwrap();
}

#[test]
fn templates_are_kept_by_creator_and_name() {
    let mut split = SplitContract::new();
    save(&mut split, CREATOR, "rent", &[ANN], &[500]);
    save(&mut split, CREATOR, "food", &[ANN, BEN], &[20, 30]);
    save(&mut split, DAN, "rent", &[BEN], &[900]);
    save(&mut split, CREATOR, "rent", &[CLEO], &[600]);
    assert_eq!(split.templates.len(), 3);

    let mut from = |creator: u128, name: &str| {
        let mut ctx = call(1_500, &[creator]);
        let id = split
            .create_from_template(&mut ctx, account(creator), &name.to_string(), 2_000)
            .unwrap();
        let invoice = split.get_invoice(id).unwrap();
        assert_eq!(invoice.creator, account(creator));
        assert_eq!(invoice.deadline, 2_000);
        assert_eq!(invoice.funded, 0);
        assert_eq!(
            ctx.effects,
            vec![Effect::InvoiceCreated {
                id,
                creator: account(creator),
                total: invoice.amounts.iter().sum(),
            }]
        );
        (invoice.recipients, invoice.amounts)
    };
    // The later template has taken the place of the earlier one.
    assert_eq!(from(CREATOR, "rent"), (accounts(&[CLEO]), vec![600]));
    assert_eq!(from(CREATOR, "food"), (accounts(&[ANN, BEN]), vec![20, 30]));
    assert_eq!(from(DAN, "rent"), (accounts(&[BEN]), vec![900]));
}

#[test]
fn invalid_templates_are_refused() {
    let mut split = SplitContract::new();
    let mut attempt = |who: &[u128], recipients: &[u128], amounts: &[i128]| {
        split.save_template(
            &call(1_000, who),
            account(CREATOR),
            "rent".to_string(),
            accounts(recipients),
            amounts.to_vec(),
            token(),
        )
    };
    assert_eq!(attempt(&[], &[ANN], &[1]), Err(SplitError::NotAuthorized));
    assert_eq!(attempt(&[CREATOR], &[ANN], &[]), Err(SplitError::LengthMismatch));
    assert_eq!(attempt(&[CREATOR], &[], &[]), Err(SplitError::NoRecipients));
    assert_eq!(attempt(&[CREATOR], &[ANN], &[0]), Err(SplitError::AmountNotPositive));
    assert_eq!(split.templates, vec![]);

    let name = "rent".to_string();
    let creator = account(CREATOR);
    let mut ctx = call(1_000, &[CREATOR]);
    assert_eq!(
        split.create_from_template(&mut ctx, account(ANN), &name, 2_000),
        Err(SplitError::NotAuthorized)
    );
    assert_eq!(
        split.create_from_template(&mut ctx, creator, &name, 2_000),
        Err(SplitError::TemplateNotFound)
    );
    save(&mut split, CREATOR, "rent", &[ANN, BEN], &[i128::MAX, 1]);
    assert_eq!(
        split.create_from_template(&mut ctx, creator, &name, 1_000),
        Err(SplitError::DeadlineNotInFuture)
    );
    // The sum of a template is looked at only here.
    assert_eq!(
        split.create_from_template(&mut ctx, creator, &name, 2_000),
        Err(SplitError::Overflow)
    );
}

#[test]
fn a_clone_starts_afresh_for_whoever_asks() {
    let mut split = SplitContract::new();
    let source = create(&mut split, &[ANN, BEN], &[30, 70], 2_000);
    pay(&mut split, 1_500, CLEO, source, 100);
    let before = split.get_invoice(source).unwrap();

    let mut ctx = call(3_000, &[DAN]);
    let copy = split.clone_invoice(&mut ctx, account(DAN), source, 4_000).unwrap();
    assert_eq!(copy, 2);
    assert_eq!(
        split.get_invoice(copy).unwrap(),
        Invoice {
            creator: account(DAN),
            recipients: accounts(&[ANN, BEN]),
            amounts: vec![30, 70],
            token: token(),
            deadline: 4_000,
            funded: 0,
            status: InvoiceStatus::Pending,
            payments: vec![],
        }
    );
    assert_eq!(split.get_invoice(source).unwrap(), before);

    assert_eq!(
        split.clone_invoice(&mut ctx, account(ANN), source, 4_000),
        Err(SplitError::NotAuthorized)
    );
    assert_eq!(
        split.clone_invoice(&mut ctx, account(DAN), 9, 4_000),
        Err(SplitError::InvoiceNotFound)
    );
    assert_eq!(
        split.clone_invoice(&mut ctx, account(DAN), source, 3_000),
        Err(SplitError::DeadlineNotInFuture)
    );
}

// ---------------------------------------------------------------------------
// Records
// ---------------------------------------------------------------------------

#[test]
fn invoices_are_listed_by_recipient_in_order() {
    let mut split = SplitContract::new();
    create(&mut split, &[ANN, BEN], &[1, 2], 2_000);
    create(&mut split, &[CLEO], &[3], 2_000);
    create(&mut split, &[BEN, BEN], &[4, 5], 2_000);
    // A settled invoice still counts.
    pay(&mut split, 1_500, DAN, 1, 3);
    assert_eq!(split.get_invoices_by_recipient(account(BEN)), vec![1, 3]);
    assert_eq!(split.get_invoices_by_recipient(account(ANN)), vec![1]);
    assert!(split.get_invoices_by_recipient(account(DAN)).is_empty());
}

#[test]
fn invoices_come_back_only_with_balanced_books() {
    let mut split = SplitContract::with_counter(1);
    assert!(!split.restore_invoice(0, stored(40)));
    assert!(!split.restore_invoice(2, stored(40)));
    assert!(!split.restore_invoice(1, stored(101)));
    assert!(!split.restore_invoice(1, Invoice { funded: 41, ..stored(40) }));
    assert!(!split.restore_invoice(1, Invoice { amounts: vec![], ..stored(0) }));
    assert!(!split.restore_invoice(1, Invoice { amounts: vec![-1], ..stored(0) }));
    assert!(!split.restore_invoice(
        1,
        Invoice { status: InvoiceStatus::Released, ..stored(40) }
    ));
    let twice = Invoice {
        recipients: accounts(&[ANN, BEN]),
        amounts: vec![i128::MAX, 1],
        ..stored(0)
    };
    assert!(!split.restore_invoice(1, twice));
    let unpaid = Invoice {
        payments: vec![
            Payment { payer: account(BEN), amount: 50 },
            Payment { payer: account(BEN), amount: -10 },
        ],
        ..stored(40)
    };
    assert!(!split.restore_invoice(1, unpaid));
    assert_eq!(split.get_invoice(1), Err(SplitError::InvoiceNotFound));

    assert!(split.restore_invoice(1, stored(40)));
    assert_eq!(split.get_invoice(1).unwrap(), stored(40));
    assert_eq!(split.get_payer_total(1, account(BEN)), Ok(40));
}

#[test]
fn logs_come_back_and_grow() {
    let mut split = SplitContract::with_counter(1);
    let earlier = line(AuditAction::Pay, account(BEN), 1_200);
    assert!(!split.restore_log(2, vec![earlier]));
    assert!(split.restore_invoice(1, stored(40)));
    assert!(split.restore_log(1, vec![earlier]));
    pay(&mut split, 1_800, CLEO, 1, 1);
    assert_eq!(
        split.get_audit_log(1),
        vec![earlier, line(AuditAction::Pay, account(CLEO), 1_800)]
    );
}

#[test]
fn actions_and_refusals_have_their_texts() {
    let actions = [
        (AuditAction::Pay, "pay"),
        (AuditAction::Release, "release"),
        (AuditAction::Refund, "refund"),
        (AuditAction::Cancel, "cancel"),
        (AuditAction::Extend, "extend"),
    ];
    for (action, text) in actions {
        assert_eq!(action.as_str(), text);
    }
    let refusals = [
        (SplitError::NotAuthorized, "not authorized"),
        (SplitError::InvoiceNotFound, "invoice not found"),
        (SplitError::TemplateNotFound, "template not found"),
        (SplitError::LengthMismatch, "recipients and amounts length mismatch"),
        (SplitError::NoRecipients, "must have at least one recipient"),
        (SplitError::MonthsOutOfRange, "months must be between 1 and 12"),
        (SplitError::AmountNotPositive, "amounts must be positive"),
        (SplitError::DeadlineNotInFuture, "deadline must be in the future"),
        (SplitError::NotPending, "invoice is not pending"),
        (SplitError::DeadlinePassed, "invoice deadline has passed"),
        (SplitError::PaymentNotPositive, "payment amount must be positive"),
        (SplitError::NegativeTip, "tip must not be negative"),
        (SplitError::ExceedsRemaining, "payment exceeds remaining balance"),
        (SplitError::NotFullyFunded, "invoice not fully funded"),
        (SplitError::FullyFunded, "invoice is fully funded"),
        (SplitError::DeadlineNotPassed, "deadline has not passed"),
        (SplitError::OnlyCreatorCancels, "only creator can cancel"),
        (SplitError::PaymentsStarted, "payments have started"),
        (SplitError::OnlyCreatorExtends, "only creator can extend deadline"),
        (SplitError::NewDeadlineNotInFuture, "new deadline must be in the future"),
        (SplitError::NotFinalized, "invoice not finalized"),
        (SplitError::Overflow, "arithmetic overflow"),
    ];
    for (refusal, text) in refusals {
        assert_eq!(refusal.message(), text);
    }
}

#[test]
fn addresses_of_an_account_and_a_contract_differ() {
    let ctx = Context::new(1, this_contract(), vec![account(ANN)]);
    assert!(ctx.is_authorized(account(ANN)));
    assert!(!ctx.is_authorized(Address { kind: AddressKind::Contract, ..account(ANN) }));
    assert!(!ctx.is_authorized(account(BEN)));
}
