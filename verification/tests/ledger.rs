//! The contract against a live ledger: a real token contract moves the money.
use soroban_sdk::testutils::{Address as _, EnvTestConfig, Ledger as _};
use soroban_sdk::token::{Client as TokenClient, StellarAssetClient};
use soroban_sdk::xdr::{AccountId, ContractId, PublicKey, ScAddress, Uint256};
use soroban_sdk::{Address as HostAddress, Env, TryFromVal};
use split::{
    Address, AddressKind, AuditEntry, Context, Effect, Invoice, InvoiceStatus, SplitContract,
    SplitError,
};

// ---------------------------------------------------------------------------
// Test helpers
// ---------------------------------------------------------------------------

/// A ledger with a token contract, and the split contract's records.
struct World {
    env: Env,
    contract_id: HostAddress,
    token_id: HostAddress,
    split: SplitContract,
}

/// The plain value of an address on the ledger.
fn plain(address: &HostAddress) -> Address {
    let (kind, key) = match ScAddress::from(address) {
        ScAddress::Account(AccountId(PublicKey::PublicKeyTypeEd25519(Uint256(key)))) => {
            (AddressKind::Account, key)
        }
        ScAddress::Contract(ContractId(soroban_sdk::xdr::Hash(key))) => {
            (AddressKind::Contract, key)
        }
        _ => panic!("not an account or a contract"),
    };
    let mut high = [0u8; 16];
    let mut low = [0u8; 16];
    high.copy_from_slice(&key[..16]);
    low.copy_from_slice(&key[16..]);
    Address { kind, high: u128::from_be_bytes(high), low: u128::from_be_bytes(low) }
}

/// The address on the ledger that a plain value stands for.
fn hosted(env: &Env, address: Address) -> HostAddress {
    let mut key = [0u8; 32];
    key[..16].copy_from_slice(&address.high.to_be_bytes());
    key[16..].copy_from_slice(&address.low.to_be_bytes());
    let sc = match address.kind {
        AddressKind::Account => {
            ScAddress::Account(AccountId(PublicKey::PublicKeyTypeEd25519(Uint256(key))))
        }
        AddressKind::Contract => ScAddress::Contract(ContractId(soroban_sdk::xdr::Hash(key))),
    };
    HostAddress::try_from_val(env, &sc).unwrap()
}

/// Deploys the token and the split contract.
fn setup() -> World {
    let env = Env::new_with_config(EnvTestConfig { capture_snapshot_at_drop: false });
    env.mock_all_auths();
    let contract_id = HostAddress::generate(&env);
    let token_admin = HostAddress::generate(&env);
    let token_id = env.register_stellar_asset_contract_v2(token_admin.clone()).address();
    StellarAssetClient::new(&env, &token_id).mint(&token_admin, &1_000_000_000);
    World { env, contract_id, token_id, split: SplitContract::new() }
}

impl World {
    fn address(&self) -> HostAddress {
        HostAddress::generate(&self.env)
    }

    fn set_timestamp(&self, timestamp: u64) {
        self.env.ledger().set_timestamp(timestamp);
    }

    fn mint(&self, to: &HostAddress, amount: i128) {
        StellarAssetClient::new(&self.env, &self.token_id).mint(to, &amount);
    }

    fn balance(&self, who: &HostAddress) -> i128 {
        TokenClient::new(&self.env, &self.token_id).balance(who)
    }

    fn context(&self, who: &[&HostAddress]) -> Context {
        Context::new(
            self.env.ledger().timestamp(),
            plain(&self.contract_id),
            who.iter().map(|a| plain(a)).collect(),
        )
    }

    /// Carries out what a call asked for; returns how many transfers there were.
    fn carry_out(&self, ctx: &Context) -> usize {
        let mut transfers = 0;
        for effect in ctx.effects.iter() {
            if let Effect::Transfer(t) = effect {
                TokenClient::new(&self.env, &hosted(&self.env, t.token)).transfer(
                    &hosted(&self.env, t.from),
                    &hosted(&self.env, t.to),
                    &t.amount,
                );
                transfers += 1;
            }
        }
        transfers
    }

    fn create_invoice(
        &mut self,
        creator: &HostAddress,
        recipients: &[&HostAddress],
        amounts: &[i128],
        deadline: u64,
    ) -> u64 {
        let mut ctx = self.context(&[creator]);
        let id = self
            .split
            .create_invoice(
                &mut ctx,
                plain(creator),
                recipients.iter().map(|a| plain(a)).collect(),
                amounts.to_vec(),
                plain(&self.token_id),
                deadline,
            )
            .unwrap();
        self.carry_out(&ctx);
        id
    }

    fn try_pay(
        &mut self,
        payer: &HostAddress,
        id: u64,
        amount: i128,
        tip: i128,
    ) -> Result<(), SplitError> {
        let mut ctx = self.context(&[payer]);
        self.split.pay(&mut ctx, plain(payer), id, amount, tip)?;
        self.carry_out(&ctx);
        Ok(())
    }

    fn pay(&mut self, payer: &HostAddress, id: u64, amount: i128, tip: i128) {
        if let Err(e) = self.try_pay(payer, id, amount, tip) {
            panic!("{}", e.message());
        }
    }

    /// Refunds an invoice; returns how many transfers that took.
    fn refund(&mut self, id: u64) -> usize {
        let mut ctx = self.context(&[]);
        self.split.refund(&mut ctx, id).unwrap();
        self.carry_out(&ctx)
    }

    fn get_invoice(&self, id: u64) -> Invoice {
        self.split.get_invoice(id).unwrap()
    }

    fn get_audit_log(&self, id: u64) -> Vec<AuditEntry> {
        self.split.get_audit_log(id)
    }
}

// ---------------------------------------------------------------------------
// Tests
// ---------------------------------------------------------------------------

#[test]
fn test_create_invoice() {
    let mut w = setup();
    let creator = w.address();
    let recipient = w.address();

    // Set ledger time so deadline is in the future.
    w.set_timestamp(1_000);

    let id = w.create_invoice(&creator, &[&recipient], &[100], 2_000);
    assert_eq!(id, 1);

    let invoice = w.get_invoice(id);
    assert_eq!(invoice.status, InvoiceStatus::Pending);
    assert_eq!(invoice.funded, 0);
}

#[test]
fn test_pay_and_auto_release() {
    let mut w = setup();
    let creator = w.address();
    let payer = w.address();
    let recipient = w.address();
    w.mint(&payer, 500);
    w.set_timestamp(1_000);

    let id = w.create_invoice(&creator, &[&recipient], &[200], 9_999);

    // Pay full amount: should auto-release.
    w.pay(&payer, id, 200, 0);

    assert_eq!(w.get_invoice(id).status, InvoiceStatus::Released);
    assert_eq!(w.balance(&recipient), 200);
}

#[test]
fn test_partial_pay_then_release() {
    let mut w = setup();
    let creator = w.address();
    let payer1 = w.address();
    let payer2 = w.address();
    let recipient = w.address();
    w.mint(&payer1, 150);
    w.mint(&payer2, 150);
    w.set_timestamp(1_000);

    let id = w.create_invoice(&creator, &[&recipient], &[300], 9_999);

    w.pay(&payer1, id, 150, 0);
    assert_eq!(w.get_invoice(id).status, InvoiceStatus::Pending);

    w.pay(&payer2, id, 150, 0);
    assert_eq!(w.get_invoice(id).status, InvoiceStatus::Released);
    assert_eq!(w.balance(&recipient), 300);
}

#[test]
fn test_refund_after_deadline() {
    let mut w = setup();
    let creator = w.address();
    let payer = w.address();
    let recipient = w.address();
    w.mint(&payer, 100);
    w.set_timestamp(1_000);

    let id = w.create_invoice(&creator, &[&recipient], &[500], 2_000);

    // Partial payment.
    w.pay(&payer, id, 100, 0);

    // Advance past deadline.
    w.set_timestamp(3_000);
    w.refund(id);

    assert_eq!(w.get_invoice(id).status, InvoiceStatus::Refunded);
    assert_eq!(w.balance(&payer), 100);
}

#[test]
#[should_panic(expected = "invoice deadline has passed")]
fn test_pay_after_deadline_panics() {
    let mut w = setup();
    let creator = w.address();
    let payer = w.address();
    let recipient = w.address();
    w.mint(&payer, 100);
    w.set_timestamp(1_000);

    let id = w.create_invoice(&creator, &[&recipient], &[100], 2_000);

    w.set_timestamp(3_000);
    w.pay(&payer, id, 100, 0);
}

#[test]
#[should_panic(expected = "payment exceeds remaining balance")]
fn test_overpayment_panics() {
    let mut w = setup();
    let creator = w.address();
    let payer = w.address();
    let recipient = w.address();
    w.mint(&payer, 1_000);
    w.set_timestamp(1_000);

    let id = w.create_invoice(&creator, &[&recipient], &[100], 9_999);
    w.pay(&payer, id, 200, 0);
}

#[test]
fn test_multi_recipient_release() {
    let mut w = setup();
    let creator = w.address();
    let payer = w.address();
    let r1 = w.address();
    let r2 = w.address();
    let r3 = w.address();
    w.mint(&payer, 600);
    w.set_timestamp(1_000);

    let id = w.create_invoice(&creator, &[&r1, &r2, &r3], &[100, 200, 300], 9_999);
    w.pay(&payer, id, 600, 0);

    assert_eq!(w.balance(&r1), 100);
    assert_eq!(w.balance(&r2), 200);
    assert_eq!(w.balance(&r3), 300);
}

#[test]
fn test_audit_log() {
    let mut w = setup();
    let creator = w.address();
    let payer = w.address();
    let recipient = w.address();
    w.mint(&payer, 500);
    w.set_timestamp(1_000);

    let id = w.create_invoice(&creator, &[&recipient], &[200], 9_999);

    // Perform action: pay (auto-release).
    w.pay(&payer, id, 200, 0);
    assert_eq!(w.get_invoice(id).status, InvoiceStatus::Released);

    // Check audit log has 2 entries (pay and release).
    let log = w.get_audit_log(id);
    assert_eq!(log.len(), 2);
    assert_eq!(log[0].action.as_str(), "pay");
    assert_eq!(log[1].action.as_str(), "release");
}

#[test]
fn test_audit_log_with_cancel() {
    let mut w = setup();
    let creator = w.address();
    let recipient = w.address();
    w.set_timestamp(1_000);

    let id = w.create_invoice(&creator, &[&recipient], &[100], 9_999);

    // Cancel the invoice.
    let ctx = w.context(&[&creator]);
    w.split.cancel_invoice(&ctx, plain(&creator), id).unwrap();

    // Check audit log has 1 entry (cancel).
    let log = w.get_audit_log(id);
    assert_eq!(log.len(), 1);
    assert_eq!(log[0].action.as_str(), "cancel");
    assert_eq!(log[0].actor, plain(&creator));
}

#[test]
fn test_audit_log_with_extend() {
    let mut w = setup();
    let creator = w.address();
    let recipient = w.address();
    w.set_timestamp(1_000);

    let id = w.create_invoice(&creator, &[&recipient], &[100], 2_000);

    // Extend the deadline.
    let ctx = w.context(&[&creator]);
    w.split.extend_deadline(&ctx, plain(&creator), id, 9_999).unwrap();

    // Check audit log has 1 entry (extend).
    let log = w.get_audit_log(id);
    assert_eq!(log.len(), 1);
    assert_eq!(log[0].action.as_str(), "extend");
    assert_eq!(log[0].actor, plain(&creator));
}

#[test]
fn test_create_subscription() {
    let mut w = setup();
    let creator = w.address();
    let payer = w.address();
    let recipient = w.address();
    w.mint(&payer, 500);
    w.set_timestamp(1_000);

    // Create a 3-month subscription.
    let mut ctx = w.context(&[&creator]);
    let id = w
        .split
        .create_subscription(
            &mut ctx,
            plain(&creator),
            vec![plain(&recipient)],
            vec![200],
            plain(&w.token_id),
            3,
        )
        .unwrap();
    assert_eq!(id, 1);

    // Pay and auto-release first invoice.
    w.pay(&payer, id, 200, 0);
    assert_eq!(w.get_invoice(id).status, InvoiceStatus::Released);

    // Second invoice should be created automatically (30 days after release).
    assert_eq!(w.get_invoice(2).status, InvoiceStatus::Pending);

    // Recipient should have received 200 from first invoice.
    assert_eq!(w.balance(&recipient), 200);
}

#[test]
fn test_clone_invoice() {
    let mut w = setup();
    let creator = w.address();
    let r1 = w.address();
    let r2 = w.address();
    w.set_timestamp(1_000);

    let source_id = w.create_invoice(&creator, &[&r1, &r2], &[100, 200], 2_000);
    let mut ctx = w.context(&[&creator]);
    let clone_id = w.split.clone_invoice(&mut ctx, plain(&creator), source_id, 9_999).unwrap();

    assert_ne!(source_id, clone_id);

    let source = w.get_invoice(source_id);
    let cloned = w.get_invoice(clone_id);

    assert_eq!(cloned.recipients, source.recipients);
    assert_eq!(cloned.amounts, source.amounts);
    assert_eq!(cloned.token, source.token);
    assert_eq!(cloned.funded, 0);
    assert_eq!(cloned.status, InvoiceStatus::Pending);
    assert_eq!(cloned.deadline, 9_999);
}

#[test]
fn test_pay_with_tip_split_equally() {
    let mut w = setup();
    let creator = w.address();
    let payer = w.address();
    let r1 = w.address();
    let r2 = w.address();
    w.mint(&payer, 500);
    w.set_timestamp(1_000);

    let id = w.create_invoice(&creator, &[&r1, &r2], &[100, 100], 9_999);

    // Pay full amount with a 20-stroop tip (10 per recipient).
    w.pay(&payer, id, 200, 20);

    assert_eq!(w.balance(&r1), 110); // 100 + 10 tip share
    assert_eq!(w.balance(&r2), 110);
}

#[test]
fn test_get_invoices_by_recipient() {
    let mut w = setup();
    let creator = w.address();
    let shared = w.address();
    let other = w.address();
    w.set_timestamp(1_000);

    let id1 = w.create_invoice(&creator, &[&shared], &[100], 9_999);
    let id2 = w.create_invoice(&creator, &[&shared, &other], &[50, 50], 9_999);

    let ids = w.split.get_invoices_by_recipient(plain(&shared));
    assert_eq!(ids.len(), 2);
    assert_eq!(ids[0], id1);
    assert_eq!(ids[1], id2);

    // Address not in any invoice returns empty.
    let unknown = w.address();
    let empty = w.split.get_invoices_by_recipient(plain(&unknown));
    assert_eq!(empty.len(), 0);
}

#[test]
fn test_aggregated_refund() {
    let mut w = setup();
    let creator = w.address();
    let payer = w.address();
    let recipient = w.address();
    w.mint(&payer, 300);
    w.set_timestamp(1_000);

    let id = w.create_invoice(&creator, &[&recipient], &[1_000], 2_000);

    // Same payer pays twice.
    w.pay(&payer, id, 100, 0);
    w.pay(&payer, id, 200, 0);

    w.set_timestamp(3_000);
    let transfers = w.refund(id);

    // Payer should receive one combined refund of 300.
    assert_eq!(transfers, 1);
    assert_eq!(w.balance(&payer), 300);
    assert_eq!(w.get_invoice(id).status, InvoiceStatus::Refunded);
}

#[test]
fn the_contract_keeps_nothing_after_settling() {
    let mut w = setup();
    let creator = w.address();
    let payer = w.address();
    let recipient = w.address();
    w.mint(&payer, 1_000);
    w.set_timestamp(1_000);

    let first = w.create_invoice(&creator, &[&recipient], &[300], 2_000);
    let second = w.create_invoice(&creator, &[&recipient], &[400], 2_000);
    w.pay(&payer, first, 100, 7);
    w.pay(&payer, second, 150, 0);
    assert_eq!(w.balance(&w.contract_id), 250);

    w.pay(&payer, first, 200, 0);
    assert_eq!(w.balance(&w.contract_id), 150);

    w.set_timestamp(2_001);
    w.refund(second);
    assert_eq!(w.balance(&w.contract_id), 0);
    assert_eq!(w.balance(&recipient), 307);
    assert_eq!(w.balance(&payer), 693);
}

#[test]
fn an_odd_tip_leaves_the_remainder_with_the_payer() {
    let mut w = setup();
    let creator = w.address();
    let payer = w.address();
    let r1 = w.address();
    let r2 = w.address();
    let r3 = w.address();
    w.mint(&payer, 1_000);
    w.set_timestamp(1_000);

    let id = w.create_invoice(&creator, &[&r1, &r2, &r3], &[10, 20, 30], 9_999);
    w.pay(&payer, id, 15, 11);
    assert_eq!(w.balance(&r1), 3);
    assert_eq!(w.balance(&r2), 3);
    assert_eq!(w.balance(&r3), 3);
    assert_eq!(w.balance(&payer), 1_000 - 15 - 9);

    // Too small to share: nobody gets anything.
    w.pay(&payer, id, 5, 2);
    assert_eq!(w.balance(&payer), 1_000 - 20 - 9);
    assert_eq!(w.balance(&w.contract_id), 20);
}

#[test]
fn completion_proofs_hash_the_message() {
    let mut w = setup();
    let creator = w.address();
    let payer = w.address();
    let recipient = w.address();
    w.mint(&payer, 500);
    w.set_timestamp(1_000);

    let id = w.create_invoice(&creator, &[&recipient], &[200], 9_999);
    let ctx = w.context(&[]);
    assert_eq!(
        w.split.get_completion_proof(&w.env, &ctx, id).map(|p| p.id),
        Err(SplitError::NotFinalized)
    );
    w.pay(&payer, id, 200, 0);
    w.set_timestamp(1_234);
    let ctx = w.context(&[]);
    let sealed = w.split.get_completion_proof(&w.env, &ctx, id).unwrap();
    assert_eq!(sealed.id, 1);
    assert_eq!(sealed.status, InvoiceStatus::Released);
    assert_eq!(sealed.funded, 200);
    assert_eq!(sealed.timestamp, 1_234);
    // The SHA-256 digest of 01 00*7, c8 00*15, 0f 27 00*6, 01.
    assert_eq!(
        sealed.hash,
        [
            0xe4, 0x25, 0x67, 0xbe, 0x94, 0xb0, 0x5e, 0xfc,
            0x4f, 0x50, 0x97, 0xbf, 0x51, 0x39, 0x55, 0x8c,
            0x37, 0xca, 0x29, 0x43, 0x6b, 0x76, 0x1c, 0x64,
            0x01, 0x43, 0x08, 0x08, 0xec, 0x6e, 0xaf, 0x33,
        ]
    );
}
