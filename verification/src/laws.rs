//! Laws of the ledger, proved from the operation contracts alone.
//!
//! Each proof function here states a property that holds of every use of
//! the ledger — conservation of supply, authorization, idempotent wallet
//! creation, atomicity of failed transfers — over the transition
//! predicates that the operations ensure.

use vstd::prelude::*;

use crate::identity::Identity;
use crate::ledger::{
    balance_of, burn_transition, change_owner_transition, create_transition, has_wallet,
    lemma_balance_le_sum, mint_transition, sum_balances, transfer_transition, Ledger,
    TransferError,
};

verus! {

/// Conservation under transfer: a transfer moves balances around but
/// changes neither the total supply nor the sum of all balances, so the
/// difference between the two is exactly what it was before the call.
pub proof fn lemma_transfer_conserves(
    pre: Ledger,
    post: Ledger,
    caller: Seq<u8>,
    to: Seq<u8>,
    amount: u128,
    now: u64,
    result: Result<bool, TransferError>,
)
    requires
        transfer_transition(pre, post, caller, to, amount, now, result),
    ensures
        post.token.total_supply - sum_balances(post.wallets@) == pre.token.total_supply
            - sum_balances(pre.wallets@),
{
}

/// Conservation under wallet creation: a new wallet starts empty, so
/// neither the total supply nor the sum of all balances moves.
pub proof fn lemma_create_conserves(
    pre: Ledger,
    post: Ledger,
    caller: Seq<u8>,
    result: Result<Identity, TransferError>,
)
    requires
        create_transition(pre, post, caller, result),
    ensures
        post.token.total_supply - sum_balances(post.wallets@) == pre.token.total_supply
            - sum_balances(pre.wallets@),
{
}

/// Conservation under mint: the total supply and the sum of all balances
/// grow by the same amount, so their difference is preserved.
pub proof fn lemma_mint_conserves(
    pre: Ledger,
    post: Ledger,
    caller: Seq<u8>,
    to: Seq<u8>,
    amount: u128,
    result: Result<bool, TransferError>,
)
    requires
        mint_transition(pre, post, caller, to, amount, result),
    ensures
        post.token.total_supply - sum_balances(post.wallets@) == pre.token.total_supply
            - sum_balances(pre.wallets@),
{
}

/// Conservation under burn: the total supply and the sum of all balances
/// shrink by the same amount, so their difference is preserved.
pub proof fn lemma_burn_conserves(
    pre: Ledger,
    post: Ledger,
    caller: Seq<u8>,
    amount: u128,
    result: Result<bool, TransferError>,
)
    requires
        burn_transition(pre, post, caller, amount, result),
    ensures
        post.token.total_supply - sum_balances(post.wallets@) == pre.token.total_supply
            - sum_balances(pre.wallets@),
{
}

/// Bounded balances: in a well-formed ledger every single balance is
/// bounded by the total supply, and so by the unsigned range; arithmetic
/// on balances backed by the supply cannot overflow.
pub proof fn lemma_balances_bounded(l: Ledger, id: Seq<u8>)
    requires
        l.wf(),
    ensures
        balance_of(l.wallets@, id) <= l.token.total_supply,
{
    lemma_balance_le_sum(l.wallets@, id);
}

/// Overflowing arithmetic is reported, never committed: a mint whose
/// amount would push the total supply past the unsigned range fails with
/// `OverflowError` and leaves the whole state untouched. (Mint is the one
/// operation whose arithmetic can leave the range: every balance is
/// backed by the supply, so transfer credits and burn debits always fit.)
pub proof fn lemma_mint_overflow_atomic(
    pre: Ledger,
    post: Ledger,
    caller: Seq<u8>,
    to: Seq<u8>,
    amount: u128,
    result: Result<bool, TransferError>,
)
    requires
        mint_transition(pre, post, caller, to, amount, result),
        caller == pre.owner@,
        pre.token.total_supply + amount > u128::MAX,
    ensures
        result == Err::<bool, TransferError>(TransferError::OverflowError),
        post == pre,
{
}

/// Authorization of mint: minting succeeds only for the owner at call
/// time; a non-owner always gets `Unauthorized` with the state untouched,
/// and the owner fails only when the supply would leave the numeric range.
pub proof fn lemma_mint_authorization(
    pre: Ledger,
    post: Ledger,
    caller: Seq<u8>,
    to: Seq<u8>,
    amount: u128,
    result: Result<bool, TransferError>,
)
    requires
        mint_transition(pre, post, caller, to, amount, result),
    ensures
        result is Ok ==> caller == pre.owner@,
        caller != pre.owner@ ==> result == Err::<bool, TransferError>(TransferError::Unauthorized)
            && post == pre,
        caller == pre.owner@ && pre.token.total_supply + amount <= u128::MAX ==> result is Ok,
{
}

/// Authorization of ownership hand-over: `change_owner` succeeds exactly
/// when the caller is the owner at call time; anyone else gets
/// `Unauthorized` and the owner (and everything else) stays as it was.
pub proof fn lemma_change_owner_authorization(
    pre: Ledger,
    post: Ledger,
    caller: Seq<u8>,
    new_owner: Seq<u8>,
    result: Result<(), TransferError>,
)
    requires
        change_owner_transition(pre, post, caller, new_owner, result),
    ensures
        result is Ok <==> caller == pre.owner@,
        result is Ok ==> post.owner@ == new_owner,
        !(result is Ok) ==> post == pre,
{
}

/// Authorization of transfer: a transfer succeeds only when the caller
/// owns the source wallet — an identity without a wallet can move nothing.
pub proof fn lemma_transfer_authorization(
    pre: Ledger,
    post: Ledger,
    caller: Seq<u8>,
    to: Seq<u8>,
    amount: u128,
    now: u64,
    result: Result<bool, TransferError>,
)
    requires
        transfer_transition(pre, post, caller, to, amount, now, result),
    ensures
        result is Ok ==> has_wallet(pre.wallets@, caller),
{
}

/// Idempotent creation guard: once a wallet was created for an identity, a
/// second creation for the same identity fails with `AlreadyExists` and
/// leaves the state exactly as the first call left it.
pub proof fn lemma_create_wallet_idempotent(
    l0: Ledger,
    l1: Ledger,
    l2: Ledger,
    caller: Seq<u8>,
    r1: Result<Identity, TransferError>,
    r2: Result<Identity, TransferError>,
)
    requires
        create_transition(l0, l1, caller, r1),
        r1 is Ok,
        create_transition(l1, l2, caller, r2),
    ensures
        r2 matches Err(e) && e == TransferError::AlreadyExists,
        l2 == l1,
{
}

/// Transfer atomicity: after a failed transfer both the sender's and the
/// recipient's balances — and the rest of the state with them — equal
/// their pre-call values exactly.
pub proof fn lemma_failed_transfer_atomic(
    pre: Ledger,
    post: Ledger,
    caller: Seq<u8>,
    to: Seq<u8>,
    amount: u128,
    now: u64,
    result: Result<bool, TransferError>,
)
    requires
        transfer_transition(pre, post, caller, to, amount, now, result),
        result is Err,
    ensures
        post == pre,
        balance_of(post.wallets@, caller) == balance_of(pre.wallets@, caller),
        balance_of(post.wallets@, to) == balance_of(pre.wallets@, to),
{
}

} // verus!
