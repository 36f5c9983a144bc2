# split

On-chain invoice and payment splitting, verified with Verus.

A creator defines an invoice: who is owed how much, in which token, until when. Anyone can pay
toward it. The payment that completes the invoice pays every recipient in the same call. If the
deadline passes first, every payer gets their money back. Templates, clones and monthly
subscriptions make further invoices from earlier ones.

## How it works

A call works on the contract's records (`SplitContract`) and on a `Context`: the time, the
contract's own address, the addresses that have authorized the call, and a list of effects. The
call changes the records and appends to the effects what it asks of the ledger: token transfers
and events, in order. A refused call changes neither.

The effects are carried out by the Soroban contract in `app/`, which also reads and writes the
ledger's storage and asks for the authorizations. If the token contract refuses a transfer, the
ledger rolls the whole call back.

## Layout

| Path | Content |
|------|---------|
| `src/types.rs`, `src/error.rs`, `src/context.rs` | the records, the refusals, and what a call sees and asks for |
| `src/model.rs`, `src/requests.rs` | the contract as a state machine: when a request is refused, and what it leads to |
| `src/money.rs`, `src/transfers.rs` | sums over amounts and payments, and the transfers made from them |
| `src/contract.rs`, `src/calls.rs`, `src/queries.rs` | the contract itself, proved against the model |
| `src/completion.rs` | completion proofs for checking off the ledger |
| `src/restore.rs` | loading stored records, each checked on the way in |
| `src/validity.rs`, `src/laws.rs`, `src/schedule.rs`, `src/escrow.rs` | what holds of every call and of every history of calls |
| `src/parts.rs` | why a call may work on the part of the records that it reads |
| `app/` | the Soroban contract around the library |
| `tests/` | the rules on plain values, and the contract against a live ledger with a token |

## What is taken on trust

One call leaves the verified library: `Crypto::sha256` of `soroban-sdk`, in `src/completion.rs`.
That it returns the same digest for the same bytes is trusted; that the bytes are the right ones is
proved.
