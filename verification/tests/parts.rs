//! Calls on a part of the records, and whole histories of calls.
use split::{
    Address, AddressKind, Context, Invoice, InvoiceStatus, SplitContract, SplitError,
    SubscriptionParams,
};

const CREATOR: u128 = 1;
const ANN: u128 = 2;
const BEN: u128 = 3;

fn account(n: u128) -> Address {
    Address { kind: AddressKind::Account, high: 0, low: n }
}

fn call(now: u64, who: u128) -> Context {
    Context::new(now, account(100), vec![account(who)])
}

fn create(split: &mut SplitContract, amount: i128) -> u64 {
    split
        .create_invoice(
            &mut call(1_000, CREATOR),
            account(CREATOR),
            vec![account(ANN)],
            vec![amount],
            account(200),
            2_000,
        )
        .unwrap()
}

/// A contract with a subscription of three months, a paid and an unpaid invoice, and a template.
fn busy() -> SplitContract {
    let mut split = SplitContract::new();
    split
        .create_subscription(
            &mut call(1_000, CREATOR),
            account(CREATOR),
            vec![account(ANN)],
            vec![100],
            account(200),
            3,
        )
        .unwrap();
    create(&mut split, 50);
    create(&mut split, 70);
    split.pay(&mut call(1_100, BEN), account(BEN), 1, 40, 0).unwrap();
    split.pay(&mut call(1_200, BEN), account(BEN), 2, 50, 0).unwrap();
    split
        .save_template(
            &call(1_300, CREATOR),
            account(CREATOR),
            "rent".to_string(),
            vec![account(ANN)],
            vec![9],
            account(200),
        )
        .unwrap();
    split
}

/// The part of the records that is kept under `id`.
fn part(whole: &SplitContract, id: u64) -> SplitContract {
    let mut split = SplitContract::with_counter(whole.counter);
    if let Ok(invoice) = whole.get_invoice(id) {
        assert!(split.restore_invoice(id, invoice));
    }
    if whole.logs.contains_key(&id) {
        assert!(split.restore_log(id, whole.get_audit_log(id)));
    }
    if let Some(params) = whole.subscriptions.get(&id) {
        let copy = SubscriptionParams {
            creator: params.creator,
            recipients: params.recipients.clone(),
            amounts: params.amounts.clone(),
            token: params.token,
            remaining: params.remaining,
        };
        assert!(split.restore_subscription(id, copy));
    }
    split
}

/// Both keep the same under `id`.
fn agree_on(one: &SplitContract, other: &SplitContract, id: u64) {
    assert_eq!(one.counter, other.counter);
    assert_eq!(one.get_invoice(id), other.get_invoice(id));
    assert_eq!(one.logs.get(&id), other.logs.get(&id));
    assert_eq!(one.subscriptions.get(&id), other.subscriptions.get(&id));
}

#[test]
fn a_part_answers_like_the_whole() {
    for id in 1..=4 {
        for amount in [1, 60, 70, 71] {
            let mut whole = busy();
            let mut some = part(&whole, id);
            let mut ctx_whole = call(1_500, BEN);
            let mut ctx_some = call(1_500, BEN);
            assert_eq!(
                some.pay(&mut ctx_some, account(BEN), id, amount, 5),
                whole.pay(&mut ctx_whole, account(BEN), id, amount, 5)
            );
            assert_eq!(ctx_some, ctx_whole);
            agree_on(&some, &whole, id);
            agree_on(&some, &whole, 4);
        }
        let mut whole = busy();
        let mut some = part(&whole, id);
        let ctx = call(1_500, CREATOR);
        assert_eq!(
            some.extend_deadline(&ctx, account(CREATOR), id, 5_000),
            whole.extend_deadline(&ctx, account(CREATOR), id, 5_000)
        );
        assert_eq!(
            some.clone_invoice(&mut call(1_500, BEN), account(BEN), id, 6_000),
            whole.clone_invoice(&mut call(1_500, BEN), account(BEN), id, 6_000)
        );
        agree_on(&some, &whole, id);
        agree_on(&some, &whole, 4);
        assert_eq!(
            some.cancel_invoice(&ctx, account(CREATOR), id),
            whole.cancel_invoice(&ctx, account(CREATOR), id)
        );
        agree_on(&some, &whole, id);

        let mut whole = busy();
        let mut some = part(&whole, id);
        assert_eq!(
            some.release(&mut call(9_999_999, BEN), id),
            whole.release(&mut call(9_999_999, BEN), id)
        );
        assert_eq!(
            some.refund(&mut call(9_999_999, BEN), id),
            whole.refund(&mut call(9_999_999, BEN), id)
        );
        agree_on(&some, &whole, id);
    }
}

#[test]
fn storing_a_part_gives_the_whole() {
    // The payment completes the first month, so the second invoice of the chain is new.
    let mut whole = busy();
    let mut stored = busy();
    let mut some = part(&stored, 1);
    some.pay(&mut call(1_500, BEN), account(BEN), 1, 60, 0).unwrap();
    whole.pay(&mut call(1_500, BEN), account(BEN), 1, 60, 0).unwrap();

    stored.counter = some.counter;
    if !some.subscriptions.contains_key(&1) {
        stored.subscriptions.remove(&1);
    }
    stored.invoices.append(&mut some.invoices);
    stored.logs.append(&mut some.logs);
    stored.subscriptions.append(&mut some.subscriptions);

    assert_eq!(stored.counter, 4);
    assert_eq!(stored.invoices, whole.invoices);
    assert_eq!(stored.logs, whole.logs);
    assert_eq!(stored.subscriptions, whole.subscriptions);
    assert_eq!(stored.templates, whole.templates);
}

#[test]
fn a_call_leaves_the_other_records_alone() {
    let before = busy();
    let mut split = busy();
    split.pay(&mut call(1_500, BEN), account(BEN), 3, 70, 0).unwrap();
    for id in [1, 2] {
        agree_on(&split, &before, id);
    }
}

/// The terms of an invoice.
fn terms(invoice: &Invoice) -> (Address, Vec<Address>, Vec<i128>, Address) {
    (invoice.creator, invoice.recipients.clone(), invoice.amounts.clone(), invoice.token)
}

#[test]
fn a_long_history_keeps_its_promises() {
    let mut split = busy();
    let earlier: Vec<_> = (1..=3).map(|id| split.get_invoice(id).unwrap()).collect();
    let logs: Vec<_> = (1..=3).map(|id| split.get_audit_log(id)).collect();

    let creator = account(CREATOR);
    split.extend_deadline(&call(1_400, CREATOR), creator, 3, 3_000).unwrap();
    split.pay(&mut call(1_500, BEN), account(BEN), 1, 60, 0).unwrap();
    split.pay(&mut call(1_500, BEN), account(BEN), 3, 10, 0).unwrap();
    split.cancel_invoice(&call(1_600, CREATOR), creator, 4).unwrap();
    assert_eq!(
        split.pay(&mut call(1_700, BEN), account(BEN), 4, 1, 0),
        Err(SplitError::NotPending)
    );
    split.refund(&mut call(3_001, BEN), 3).unwrap();
    assert_eq!(create(&mut split, 7), 5);

    for id in 1..=3 {
        let now = split.get_invoice(id).unwrap();
        let log = split.get_audit_log(id);
        let i = id as usize - 1;
        assert_eq!(terms(&now), terms(&earlier[i]));
        assert_eq!(log[..logs[i].len()], logs[i][..]);
        assert!(log.windows(2).all(|pair| pair[0].timestamp <= pair[1].timestamp));
    }
    // Every identifier is an invoice, released if and only if it is fully funded.
    assert_eq!(split.counter, 5);
    for id in 1..=split.counter {
        let invoice = split.get_invoice(id).unwrap();
        let total: i128 = invoice.amounts.iter().sum();
        assert_eq!(invoice.status == InvoiceStatus::Released, invoice.funded == total);
        assert_ne!(invoice.status, InvoiceStatus::Cancelled);
    }
    assert_eq!(split.get_invoice(6), Err(SplitError::InvoiceNotFound));
}

#[test]
fn a_template_waits_through_other_calls() {
    let mut split = busy();
    // Other names, other creators and other calls leave it alone.
    for (who, name) in [(CREATOR, "food"), (BEN, "rent")] {
        split
            .save_template(
                &call(1_400, who),
                account(who),
                name.to_string(),
                vec![account(BEN)],
                vec![1],
                account(200),
            )
            .unwrap();
    }
    split.pay(&mut call(1_500, BEN), account(BEN), 1, 60, 0).unwrap();
    split.refund(&mut call(2_001, BEN), 3).unwrap();

    let name = "rent".to_string();
    let id = split
        .create_from_template(&mut call(2_100, CREATOR), account(CREATOR), &name, 3_000)
        .unwrap();
    assert_eq!(
        split.get_invoice(id).unwrap(),
        Invoice {
            creator: account(CREATOR),
            recipients: vec![account(ANN)],
            amounts: vec![9],
            token: account(200),
            deadline: 3_000,
            funded: 0,
            status: InvoiceStatus::Pending,
            payments: vec![],
        }
    );
}

#[test]
fn a_chain_of_months_runs_between_other_calls() {
    let mut split = busy();
    let first = terms(&split.get_invoice(1).unwrap());
    let mut chain = vec![1];
    split.pay(&mut call(1_500, BEN), account(BEN), 1, 60, 0).unwrap();
    chain.push(split.counter);
    assert_eq!(split.subscriptions[&4].remaining, 1);

    // Invoices of others come in between.
    create(&mut split, 7);
    split.pay(&mut call(1_600, BEN), account(BEN), 3, 70, 0).unwrap();
    split.extend_deadline(&call(1_700, CREATOR), account(CREATOR), 4, 9_000_000).unwrap();

    split.pay(&mut call(1_800, BEN), account(BEN), 4, 100, 0).unwrap();
    chain.push(split.counter);
    assert_eq!(chain, vec![1, 4, 6]);
    for id in chain.iter() {
        assert_eq!(terms(&split.get_invoice(*id).unwrap()), first);
        assert!(!split.subscriptions.contains_key(id));
    }
    assert_eq!(split.get_invoice(6).unwrap().status, InvoiceStatus::Pending);
    split.pay(&mut call(1_900, BEN), account(BEN), 6, 100, 0).unwrap();
    assert_eq!(split.counter, 6);
}

#[test]
fn totals_and_logs_tell_the_whole_history() {
    let mut split = busy();
    split.pay(&mut call(1_400, BEN), account(BEN), 3, 20, 5).unwrap();
    split.pay(&mut call(1_450, ANN), account(ANN), 3, 10, 0).unwrap();
    assert!(split.pay(&mut call(1_460, BEN), account(BEN), 3, 500, 0).is_err());
    split.extend_deadline(&call(1_500, CREATOR), account(CREATOR), 3, 2_500).unwrap();
    split.pay(&mut call(2_400, BEN), account(BEN), 3, 1, 0).unwrap();
    split.refund(&mut call(2_501, ANN), 3).unwrap();

    assert_eq!(split.get_payer_total(3, account(BEN)), Ok(21));
    assert_eq!(split.get_payer_total(3, account(ANN)), Ok(10));
    let log: Vec<_> = split
        .get_audit_log(3)
        .iter()
        .map(|line| (line.action.as_str(), line.actor, line.timestamp))
        .collect();
    assert_eq!(
        log,
        vec![
            ("pay", account(BEN), 1_400),
            ("pay", account(ANN), 1_450),
            ("extend", account(CREATOR), 1_500),
            ("pay", account(BEN), 2_400),
            ("refund", account(100), 2_501),
        ]
    );
}
