//! Completion proofs, and the records of subscriptions and templates.
use split::completion::message_of;
use split::{
    Address, AddressKind, Context, Invoice, InvoiceStatus, InvoiceTemplate, SplitContract,
    SplitError, SubscriptionParams,
};

fn account(n: u128) -> Address {
    Address { kind: AddressKind::Account, high: 0, low: n }
}

fn invoice(status: InvoiceStatus) -> Invoice {
    Invoice {
        creator: account(1),
        recipients: vec![account(2)],
        amounts: vec![100],
        token: account(9),
        deadline: 0x0102_0304_0506_0708,
        funded: 0,
        status,
        payments: vec![],
    }
}

/// A contract with this one invoice.
fn holding(invoice: Invoice) -> SplitContract {
    let mut split = SplitContract::with_counter(1);
    assert!(split.restore_invoice(1, invoice));
    split
}

#[test]
fn the_message_is_little_endian() {
    let mut funded = invoice(InvoiceStatus::Refunded);
    funded.funded = 0x1122_3344;
    let mut expected = vec![0xef, 0xcd, 0xab, 0, 0, 0, 0, 0];
    expected.extend([0x44, 0x33, 0x22, 0x11, 0, 0, 0, 0, 0, 0, 0, 0, 0, 0, 0, 0]);
    expected.extend([8, 7, 6, 5, 4, 3, 2, 1]);
    expected.push(2);
    assert_eq!(message_of(0xab_cdef, &funded), expected);
}

#[test]
fn the_message_agrees_with_to_le_bytes() {
    for funded in [0, 1, 255, 256, i128::MAX, -1, -256, i128::MIN] {
        for (status, code) in [
            (InvoiceStatus::Pending, 0u8),
            (InvoiceStatus::Released, 1),
            (InvoiceStatus::Refunded, 2),
            (InvoiceStatus::Cancelled, 3),
        ] {
            let mut subject = invoice(status);
            subject.funded = funded;
            let mut expected = u64::MAX.to_le_bytes().to_vec();
            expected.extend(funded.to_le_bytes());
            expected.extend(subject.deadline.to_le_bytes());
            expected.push(code);
            assert_eq!(message_of(u64::MAX, &subject), expected);
        }
    }
}

#[test]
fn messages_tell_invoices_apart() {
    let released = invoice(InvoiceStatus::Released);
    let refunded = invoice(InvoiceStatus::Refunded);
    let mut later = invoice(InvoiceStatus::Released);
    later.deadline += 1;
    let mut richer = invoice(InvoiceStatus::Released);
    richer.funded = 1;
    let message = message_of(1, &released);
    assert_ne!(message, message_of(2, &released));
    assert_ne!(message, message_of(1, &refunded));
    assert_ne!(message, message_of(1, &later));
    assert_ne!(message, message_of(1, &richer));
}

#[test]
fn only_finalized_invoices_are_sealed() {
    let hash = [7u8; 32];
    let split = holding(invoice(InvoiceStatus::Refunded));
    let sealed = split.seal_completion(1, 55, hash).unwrap();
    assert_eq!(sealed.id, 1);
    assert_eq!(sealed.status, InvoiceStatus::Refunded);
    assert_eq!(sealed.funded, 0);
    assert_eq!(sealed.timestamp, 55);
    assert_eq!(sealed.hash, hash);

    assert_eq!(split.seal_completion(2, 55, hash), Err(SplitError::InvoiceNotFound));
    for status in [InvoiceStatus::Pending, InvoiceStatus::Cancelled] {
        let split = holding(invoice(status));
        assert_eq!(split.seal_completion(1, 55, hash), Err(SplitError::NotFinalized));
    }
}

fn params(remaining: u32) -> SubscriptionParams {
    SubscriptionParams {
        creator: account(1),
        recipients: vec![account(2)],
        amounts: vec![100],
        token: account(9),
        remaining,
    }
}

#[test]
fn subscriptions_come_back_and_run_on() {
    let mut split = holding(invoice(InvoiceStatus::Pending));
    assert!(!split.restore_subscription(0, params(1)));
    assert!(!split.restore_subscription(2, params(1)));
    assert!(!split.restore_subscription(1, params(0)));
    assert!(!split.restore_subscription(1, params(12)));
    assert!(!split.restore_subscription(1, SubscriptionParams { amounts: vec![0], ..params(1) }));
    let too_much = SubscriptionParams {
        recipients: vec![account(2), account(3)],
        amounts: vec![i128::MAX, 1],
        ..params(1)
    };
    assert!(!split.restore_subscription(1, too_much));
    assert!(split.restore_subscription(1, params(11)));
    assert!(split.restore_subscription(1, params(1)));

    let mut ctx = Context::new(1_000, account(8), vec![account(4)]);
    split.pay(&mut ctx, account(4), 1, 100, 0).unwrap();
    assert_eq!(split.counter, 2);
    assert_eq!(split.get_invoice(2).unwrap().deadline, 1_000 + 30 * 24 * 60 * 60);
    split.pay(&mut ctx, account(4), 2, 100, 0).unwrap();
    assert_eq!(split.counter, 2);
}

#[test]
fn templates_come_back() {
    let template = |amounts: Vec<i128>| InvoiceTemplate {
        recipients: vec![account(2)],
        amounts,
        token: account(9),
    };
    let name = "rent".to_string();
    let mut split = SplitContract::new();
    assert!(!split.restore_template(account(1), name.clone(), template(vec![])));
    assert!(!split.restore_template(account(1), name.clone(), template(vec![0])));
    assert!(split.restore_template(account(1), name.clone(), template(vec![5])));
    assert!(split.restore_template(account(1), name.clone(), template(vec![6])));

    let mut ctx = Context::new(1_000, account(8), vec![account(1)]);
    let id = split.create_from_template(&mut ctx, account(1), &name, 2_000).unwrap();
    assert_eq!(split.get_invoice(id).unwrap().amounts, vec![6]);
}
