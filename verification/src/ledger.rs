//! The token ledger: a single token with a total supply, wallets keyed by
//! caller identity, an append-only log of transfers, and one privileged
//! owner identity.
//!
//! All state lives in the [`Ledger`] value. Every mutating operation takes
//! the authenticated caller as an argument, validates fully before touching
//! anything, and either commits as one atomic step or returns a typed error
//! with the whole state untouched. Each operation's contract is stated as a
//! transition predicate relating the state before the call, the state after
//! it, and the result, so that laws about sequences of operations can be
//! proved from the contracts alone.

use vstd::prelude::*;

use crate::identity::Identity;

verus! {

/// The starting total supply fixed at initialization: 10^18 base units.
pub const INITIAL_SUPPLY: u128 = 1_000_000_000_000_000_000;

/// The number of decimals of the token.
pub const TOKEN_DECIMALS: u8 = 8;

/// Token metadata together with the current total supply.
pub struct Token {
    pub name: String,
    pub symbol: String,
    pub decimals: u8,
    pub total_supply: u128,
}

impl Clone for Token {
    fn clone(&self) -> (r: Self)
        ensures
            r == *self,
    {
        Token {
            name: self.name.clone(),
            symbol: self.symbol.clone(),
            decimals: self.decimals,
            total_supply: self.total_supply,
        }
    }
}

/// One ledger entry: the identity that owns it and its token balance.
pub struct Wallet {
    pub owner: Identity,
    pub balance: u128,
}

/// A committed transfer, recorded in ledger order.
pub struct TransferEvent {
    pub from: Identity,
    pub to: Identity,
    pub amount: u128,
    pub timestamp: u64,
}

impl View for TransferEvent {
    type V = (Seq<u8>, Seq<u8>, u128, u64);

    open spec fn view(&self) -> (Seq<u8>, Seq<u8>, u128, u64) {
        (self.from@, self.to@, self.amount, self.timestamp)
    }
}

impl Clone for TransferEvent {
    fn clone(&self) -> (r: Self)
        ensures
            r@ == self@,
    {
        TransferEvent {
            from: self.from.clone(),
            to: self.to.clone(),
            amount: self.amount,
            timestamp: self.timestamp,
        }
    }
}

/// Typed failures of the ledger operations. Every operation that fails
/// returns one of these and leaves the ledger exactly as it was.
#[derive(Clone, Copy, Debug, PartialEq, Eq, Structural)]
pub enum TransferError {
    InsufficientBalance,
    RecipientWalletNotFound,
    SenderWalletNotFound,
    Unauthorized,
    InvalidAmount,
    OverflowError,
    AlreadyExists,
}

/// Whether some wallet in `s` is owned by `id`.
pub open spec fn has_wallet(s: Seq<Wallet>, id: Seq<u8>) -> bool {
    exists|i: int| 0 <= i < s.len() && #[trigger] s[i].owner@ == id
}

/// The index of the wallet owned by `id` (meaningful only when one exists).
pub open spec fn wallet_index(s: Seq<Wallet>, id: Seq<u8>) -> int {
    choose|i: int| 0 <= i < s.len() && #[trigger] s[i].owner@ == id
}

/// The balance held by `id`: the balance of its wallet, or 0 when it has none.
pub open spec fn balance_of(s: Seq<Wallet>, id: Seq<u8>) -> u128 {
    if has_wallet(s, id) {
        s[wallet_index(s, id)].balance
    } else {
        0
    }
}

/// No two wallets share an owner.
pub open spec fn unique_owners(s: Seq<Wallet>) -> bool {
    forall|i: int, j: int|
        0 <= i < j < s.len() ==> #[trigger] s[i].owner@ != #[trigger] s[j].owner@
}

/// The sum of all wallet balances.
pub open spec fn sum_balances(s: Seq<Wallet>) -> int
    decreases s.len(),
{
    if s.len() == 0 {
        0
    } else {
        sum_balances(s.drop_last()) + s.last().balance
    }
}

/// The sum of balances is never negative.
proof fn lemma_sum_nonneg(s: Seq<Wallet>)
    ensures
        sum_balances(s) >= 0,
    decreases s.len(),
{
    if s.len() > 0 {
        lemma_sum_nonneg(s.drop_last());
    }
}

/// Each single balance is bounded by the sum of all balances.
proof fn lemma_sum_element(s: Seq<Wallet>, i: int)
    requires
        0 <= i < s.len(),
    ensures
        s[i].balance <= sum_balances(s),
    decreases s.len(),
{
    if i == s.len() - 1 {
        lemma_sum_nonneg(s.drop_last());
    } else {
        lemma_sum_element(s.drop_last(), i);
        assert(s.drop_last()[i] == s[i]);
        assert(s.last().balance >= 0);
    }
}

/// Appending a wallet adds its balance to the sum.
proof fn lemma_sum_push(s: Seq<Wallet>, w: Wallet)
    ensures
        sum_balances(s.push(w)) == sum_balances(s) + w.balance,
{
    assert(s.push(w).drop_last() =~= s);
    assert(s.push(w).last() == w);
}

/// Replacing the wallet at `i` shifts the sum by the balance difference.
proof fn lemma_sum_update(s: Seq<Wallet>, i: int, w: Wallet)
    requires
        0 <= i < s.len(),
    ensures
        sum_balances(s.update(i, w)) == sum_balances(s) - s[i].balance + w.balance,
    decreases s.len(),
{
    let t = s.update(i, w);
    if i == s.len() - 1 {
        assert(t.drop_last() =~= s.drop_last());
        assert(t.last() == w);
    } else {
        assert(t.drop_last() =~= s.drop_last().update(i, w));
        assert(t.last() == s.last());
        lemma_sum_update(s.drop_last(), i, w);
        assert(s.drop_last()[i] == s[i]);
    }
}

/// Any single identity's balance is bounded by the sum of all balances.
pub proof fn lemma_balance_le_sum(s: Seq<Wallet>, id: Seq<u8>)
    ensures
        balance_of(s, id) <= sum_balances(s),
{
    if has_wallet(s, id) {
        lemma_sum_element(s, wallet_index(s, id));
    } else {
        lemma_sum_nonneg(s);
    }
}

/// With unique owners, the wallet at `i` is the one found for its owner.
proof fn lemma_wallet_at(s: Seq<Wallet>, i: int)
    requires
        unique_owners(s),
        0 <= i < s.len(),
    ensures
        has_wallet(s, s[i].owner@),
        wallet_index(s, s[i].owner@) == i,
        balance_of(s, s[i].owner@) == s[i].balance,
{
    assert(s[i].owner@ == s[i].owner@);
    let j = wallet_index(s, s[i].owner@);
    assert(0 <= j < s.len() && s[j].owner@ == s[i].owner@);
    if j < i {
        assert(s[j].owner@ != s[i].owner@);
    } else if i < j {
        assert(s[i].owner@ != s[j].owner@);
    }
}

/// How replacing the wallet at `i` by one with the same owner changes
/// ownership and balances: nothing but the balance of that owner moves.
proof fn lemma_update_wallet(s: Seq<Wallet>, i: int, w: Wallet, id: Seq<u8>)
    requires
        unique_owners(s),
        0 <= i < s.len(),
        w.owner@ == s[i].owner@,
    ensures
        unique_owners(s.update(i, w)),
        has_wallet(s.update(i, w), id) == has_wallet(s, id),
        id == s[i].owner@ ==> balance_of(s.update(i, w), id) == w.balance,
        id != s[i].owner@ ==> balance_of(s.update(i, w), id) == balance_of(s, id),
{
    let t = s.update(i, w);
    assert forall|m: int| 0 <= m < s.len() implies #[trigger] t[m].owner@ == s[m].owner@ by {
        if m != i {
            assert(t[m] == s[m]);
        }
    }
    assert forall|a: int, b: int| 0 <= a < b < t.len() implies #[trigger] t[a].owner@
        != #[trigger] t[b].owner@ by {
        assert(s[a].owner@ != s[b].owner@);
    }
    if has_wallet(s, id) {
        let j = wallet_index(s, id);
        assert(t[j].owner@ == id);
        assert(has_wallet(t, id));
    }
    if has_wallet(t, id) {
        let j = wallet_index(t, id);
        assert(s[j].owner@ == id);
        assert(has_wallet(s, id));
    }
    if id == s[i].owner@ {
        lemma_wallet_at(t, i);
    } else {
        if has_wallet(s, id) {
            let j = wallet_index(s, id);
            assert(j != i);
            lemma_wallet_at(s, j);
            lemma_wallet_at(t, j);
        }
    }
}

/// How appending a wallet with a fresh owner changes ownership and
/// balances: only the new owner gains a wallet, holding the pushed balance.
proof fn lemma_push_wallet(s: Seq<Wallet>, w: Wallet, id: Seq<u8>)
    requires
        unique_owners(s),
        !has_wallet(s, w.owner@),
    ensures
        unique_owners(s.push(w)),
        has_wallet(s.push(w), id) == (has_wallet(s, id) || id == w.owner@),
        id == w.owner@ ==> balance_of(s.push(w), id) == w.balance,
        id != w.owner@ ==> balance_of(s.push(w), id) == balance_of(s, id),
{
    let t = s.push(w);
    assert(t[s.len() as int].owner@ == w.owner@);
    assert forall|a: int, b: int| 0 <= a < b < t.len() implies #[trigger] t[a].owner@
        != #[trigger] t[b].owner@ by {
        if b < s.len() {
            assert(t[a] == s[a] && t[b] == s[b]);
            assert(s[a].owner@ != s[b].owner@);
        } else {
            assert(t[a] == s[a]);
            assert(t[b].owner@ == w.owner@);
            if s[a].owner@ == w.owner@ {
                assert(has_wallet(s, w.owner@));
            }
        }
    }
    if has_wallet(s, id) {
        let j = wallet_index(s, id);
        assert(t[j].owner@ == id);
        assert(has_wallet(t, id));
    }
    if id == w.owner@ {
        assert(has_wallet(t, id));
        lemma_wallet_at(t, s.len() as int);
    } else {
        if has_wallet(t, id) {
            let j = wallet_index(t, id);
            assert(j != s.len());
            assert(s[j].owner@ == id);
            assert(has_wallet(s, id));
        }
        if has_wallet(s, id) {
            let j = wallet_index(s, id);
            lemma_wallet_at(s, j);
            lemma_wallet_at(t, j);
        }
    }
}

/// The whole ledger state: token registry, wallet store, transfer log, and
/// the privileged owner identity.
pub struct Ledger {
    pub token: Token,
    pub wallets: Vec<Wallet>,
    pub events: Vec<TransferEvent>,
    pub owner: Identity,
}

impl Ledger {
    /// Well-formedness: wallet owners are unique, and the wallets together
    /// never hold more than the total supply, so no balance mutation that
    /// respects the supply can overflow a balance.
    pub open spec fn wf(&self) -> bool {
        &&& unique_owners(self.wallets@)
        &&& sum_balances(self.wallets@) <= self.token.total_supply
    }

    /// Sets up the ledger at first activation: the fixed token record with
    /// the starting supply, no wallets, no transfer events, and the
    /// initializing identity as owner.
    pub fn new(owner: Identity) -> (l: Ledger)
        ensures
            l.wf(),
            l.token.name@ == "ICP Token"@,
            l.token.symbol@ == "ICPT"@,
            l.token.decimals == TOKEN_DECIMALS,
            l.token.total_supply == INITIAL_SUPPLY,
            l.wallets@.len() == 0,
            l.events@.len() == 0,
            l.owner == owner,
            sum_balances(l.wallets@) == 0,
    {
        Ledger {
            token: Token {
                name: String::from_str("ICP Token"),
                symbol: String::from_str("ICPT"),
                decimals: TOKEN_DECIMALS,
                total_supply: INITIAL_SUPPLY,
            },
            wallets: Vec::new(),
            events: Vec::new(),
            owner,
        }
    }

    /// Whether the caller is the current owner of the token registry.
    pub fn is_owner(&self, caller: &Identity) -> (b: bool)
        ensures
            b <==> caller@ == self.owner@,
    {
        self.owner.same(caller)
    }

    /// Whether a wallet exists for `id`.
    pub fn has_wallet_for(&self, id: &Identity) -> (b: bool)
        ensures
            b == has_wallet(self.wallets@, id@),
    {
        find_wallet(&self.wallets, id).is_some()
    }

    /// The balance held by `owner`, or 0 when it has no wallet.
    pub fn get_balance(&self, owner: &Identity) -> (balance: u128)
        requires
            self.wf(),
        ensures
            balance == balance_of(self.wallets@, owner@),
    {
        match find_wallet(&self.wallets, owner) {
            Some(i) => {
                proof {
                    lemma_wallet_at(self.wallets@, i as int);
                }
                self.wallets[i].balance
            },
            None => 0,
        }
    }

    /// A snapshot copy of the token record.
    pub fn get_token_info(&self) -> (t: Token)
        ensures
            t == self.token,
    {
        self.token.clone()
    }

    /// A snapshot copy of the transfer log, in ledger (insertion) order.
    pub fn get_transfer_history(&self) -> (log: Vec<TransferEvent>)
        ensures
            log@.len() == self.events@.len(),
            forall|k: int| 0 <= k < log@.len() ==> #[trigger] log@[k]@ == self.events@[k]@,
    {
        let mut log: Vec<TransferEvent> = Vec::new();
        let mut k: usize = 0;
        while k < self.events.len()
            invariant
                k <= self.events@.len(),
                log@.len() == k,
                forall|m: int| 0 <= m < k ==> #[trigger] log@[m]@ == self.events@[m]@,
            decreases self.events@.len() - k,
        {
            log.push(self.events[k].clone());
            k = k + 1;
        }
        log
    }
}

/// What `mint` does: exactly when the caller is the current owner and the
/// added amount fits the supply's numeric range, the total supply and the
/// recipient's balance (its wallet created on demand) both grow by
/// `amount`, moving in lockstep; nothing else moves. A non-owner gets
/// `Unauthorized`, an overflowing amount `OverflowError`, and either
/// failure leaves the whole state untouched.
pub open spec fn mint_transition(
    pre: Ledger,
    post: Ledger,
    caller: Seq<u8>,
    to: Seq<u8>,
    amount: u128,
    result: Result<bool, TransferError>,
) -> bool {
    &&& (result is Ok <==> caller == pre.owner@ && pre.token.total_supply + amount <= u128::MAX)
    &&& match result {
        Ok(b) => {
            &&& b == true
            &&& post.token.name == pre.token.name
            &&& post.token.symbol == pre.token.symbol
            &&& post.token.decimals == pre.token.decimals
            &&& post.token.total_supply == pre.token.total_supply + amount
            &&& post.owner == pre.owner
            &&& post.events == pre.events
            &&& balance_of(post.wallets@, to) == balance_of(pre.wallets@, to) + amount
            &&& forall|id: Seq<u8>|
                id != to ==> #[trigger] balance_of(post.wallets@, id) == balance_of(
                    pre.wallets@,
                    id,
                )
            &&& forall|id: Seq<u8>|
                #[trigger] has_wallet(post.wallets@, id) == (has_wallet(pre.wallets@, id) || id
                    == to)
            &&& sum_balances(post.wallets@) == sum_balances(pre.wallets@) + amount
        },
        Err(e) => {
            &&& post == pre
            &&& e == if caller != pre.owner@ {
                TransferError::Unauthorized
            } else {
                TransferError::OverflowError
            }
        },
    }
}

/// What `burn` does: exactly when the caller owns a wallet holding at
/// least `amount`, its balance and the total supply both shrink by
/// `amount`, moving in lockstep; nothing else moves. A caller without a
/// wallet gets `SenderWalletNotFound`, one with too small a balance
/// `InsufficientBalance`, and either failure leaves the whole state
/// untouched.
pub open spec fn burn_transition(
    pre: Ledger,
    post: Ledger,
    caller: Seq<u8>,
    amount: u128,
    result: Result<bool, TransferError>,
) -> bool {
    &&& (result is Ok <==> has_wallet(pre.wallets@, caller) && balance_of(pre.wallets@, caller)
        >= amount)
    &&& match result {
        Ok(b) => {
            &&& b == true
            &&& post.token.name == pre.token.name
            &&& post.token.symbol == pre.token.symbol
            &&& post.token.decimals == pre.token.decimals
            &&& post.token.total_supply == pre.token.total_supply - amount
            &&& post.owner == pre.owner
            &&& post.events == pre.events
            &&& balance_of(post.wallets@, caller) == balance_of(pre.wallets@, caller) - amount
            &&& forall|id: Seq<u8>|
                id != caller ==> #[trigger] balance_of(post.wallets@, id) == balance_of(
                    pre.wallets@,
                    id,
                )
            &&& forall|id: Seq<u8>|
                #[trigger] has_wallet(post.wallets@, id) == has_wallet(pre.wallets@, id)
            &&& sum_balances(post.wallets@) == sum_balances(pre.wallets@) - amount
        },
        Err(e) => {
            &&& post == pre
            &&& e == if !has_wallet(pre.wallets@, caller) {
                TransferError::SenderWalletNotFound
            } else {
                TransferError::InsufficientBalance
            }
        },
    }
}

impl Ledger {
    /// Creates `amount` fresh base units in `to`'s wallet (created on
    /// demand) and adds the same amount to the total supply, as one atomic
    /// step. Only the current owner may mint.
    pub fn mint(&mut self, caller: &Identity, to: &Identity, amount: u128) -> (result: Result<
        bool,
        TransferError,
    >)
        requires
            old(self).wf(),
        ensures
            final(self).wf(),
            mint_transition(*old(self), *final(self), caller@, to@, amount, result),
    {
        let ghost s0 = self.wallets@;
        if !self.is_owner(caller) {
            return Err(TransferError::Unauthorized);
        }
        let new_supply = match self.token.total_supply.checked_add(amount) {
            Some(v) => v,
            None => {
                return Err(TransferError::OverflowError);
            },
        };
        let j_opt = find_wallet(&self.wallets, to);
        let to_balance: u128 = match j_opt {
            Some(j) => {
                proof {
                    // The credit below cannot overflow: the wallet's
                    // balance is bounded by the sum of all balances, which
                    // well-formedness bounds by the old total supply.
                    lemma_wallet_at(s0, j as int);
                    lemma_sum_element(s0, j as int);
                }
                self.wallets[j].balance
            },
            None => 0,
        };
        let credited = match to_balance.checked_add(amount) {
            Some(v) => v,
            None => {
                return Err(TransferError::OverflowError);
            },
        };
        self.token.total_supply = new_supply;
        match j_opt {
            Some(j) => {
                self.wallets[j].balance = credited;
                proof {
                    let w = Wallet { owner: s0[j as int].owner, balance: credited };
                    assert(self.wallets@ =~= s0.update(j as int, w));
                    lemma_sum_update(s0, j as int, w);
                    assert forall|id: Seq<u8>| true implies {
                        &&& #[trigger] has_wallet(self.wallets@, id) == has_wallet(s0, id)
                        &&& (id == to@ ==> balance_of(self.wallets@, id) == credited)
                        &&& (id != to@ ==> balance_of(self.wallets@, id) == balance_of(s0, id))
                    } by {
                        lemma_update_wallet(s0, j as int, w, id);
                    }
                }
            },
            None => {
                let new_wallet = Wallet { owner: to.clone(), balance: credited };
                proof {
                    lemma_sum_push(s0, new_wallet);
                    assert forall|id: Seq<u8>| true implies {
                        &&& #[trigger] has_wallet(s0.push(new_wallet), id) == (has_wallet(s0, id)
                            || id == to@)
                        &&& (id == to@ ==> balance_of(s0.push(new_wallet), id) == credited)
                        &&& (id != to@ ==> balance_of(s0.push(new_wallet), id) == balance_of(
                            s0,
                            id,
                        ))
                    } by {
                        lemma_push_wallet(s0, new_wallet, id);
                    }
                }
                self.wallets.push(new_wallet);
            },
        }
        Ok(true)
    }

    /// Destroys `amount` base units from the caller's wallet and removes
    /// the same amount from the total supply, as one atomic step.
    pub fn burn(&mut self, caller: &Identity, amount: u128) -> (result: Result<
        bool,
        TransferError,
    >)
        requires
            old(self).wf(),
        ensures
            final(self).wf(),
            burn_transition(*old(self), *final(self), caller@, amount, result),
    {
        let ghost s0 = self.wallets@;
        let i = match find_wallet(&self.wallets, caller) {
            Some(i) => i,
            None => {
                return Err(TransferError::SenderWalletNotFound);
            },
        };
        proof {
            lemma_wallet_at(s0, i as int);
            lemma_sum_element(s0, i as int);
        }
        let balance = self.wallets[i].balance;
        if balance < amount {
            return Err(TransferError::InsufficientBalance);
        }
        // Checked debits; neither can fail — the balance test covers the
        // wallet, and well-formedness bounds the balance by the supply —
        // but both failure paths are handled rather than assumed away.
        let debited = match balance.checked_sub(amount) {
            Some(v) => v,
            None => {
                return Err(TransferError::OverflowError);
            },
        };
        let new_supply = match self.token.total_supply.checked_sub(amount) {
            Some(v) => v,
            None => {
                return Err(TransferError::OverflowError);
            },
        };
        self.wallets[i].balance = debited;
        self.token.total_supply = new_supply;
        proof {
            let w = Wallet { owner: s0[i as int].owner, balance: debited };
            assert(self.wallets@ =~= s0.update(i as int, w));
            lemma_sum_update(s0, i as int, w);
            assert forall|id: Seq<u8>| true implies {
                &&& #[trigger] has_wallet(self.wallets@, id) == has_wallet(s0, id)
                &&& (id == caller@ ==> balance_of(self.wallets@, id) == debited)
                &&& (id != caller@ ==> balance_of(self.wallets@, id) == balance_of(s0, id))
            } by {
                lemma_update_wallet(s0, i as int, w, id);
            }
        }
        Ok(true)
    }
}

/// What `create_wallet` does: exactly when the caller has no wallet yet, a
/// wallet with a zero balance appears for it and the caller identity is
/// returned; everything else — token record, owner, transfer log, every
/// other wallet — stays as it was. A second call for the same identity
/// fails with `AlreadyExists` and changes nothing at all.
pub open spec fn create_transition(
    pre: Ledger,
    post: Ledger,
    caller: Seq<u8>,
    result: Result<Identity, TransferError>,
) -> bool {
    &&& (result is Ok <==> !has_wallet(pre.wallets@, caller))
    &&& match result {
        Ok(id) => {
            &&& id@ == caller
            &&& post.token == pre.token
            &&& post.owner == pre.owner
            &&& post.events == pre.events
            &&& post.wallets@.len() == pre.wallets@.len() + 1
            &&& has_wallet(post.wallets@, caller)
            &&& balance_of(post.wallets@, caller) == 0
            &&& forall|id: Seq<u8>|
                id != caller ==> #[trigger] has_wallet(post.wallets@, id) == has_wallet(
                    pre.wallets@,
                    id,
                )
            &&& forall|id: Seq<u8>|
                id != caller ==> #[trigger] balance_of(post.wallets@, id) == balance_of(
                    pre.wallets@,
                    id,
                )
            &&& sum_balances(post.wallets@) == sum_balances(pre.wallets@)
        },
        Err(e) => {
            &&& post == pre
            &&& e == TransferError::AlreadyExists
        },
    }
}

/// What `change_owner` does: exactly when the caller is the current owner,
/// the owner is replaced by `new_owner` (unconditionally, even when the two
/// coincide) and nothing else moves; otherwise the call fails with
/// `Unauthorized` and the whole state is untouched.
pub open spec fn change_owner_transition(
    pre: Ledger,
    post: Ledger,
    caller: Seq<u8>,
    new_owner: Seq<u8>,
    result: Result<(), TransferError>,
) -> bool {
    &&& (result is Ok <==> caller == pre.owner@)
    &&& match result {
        Ok(u) => {
            &&& post.owner@ == new_owner
            &&& post.token == pre.token
            &&& post.wallets == pre.wallets
            &&& post.events == pre.events
        },
        Err(e) => {
            &&& post == pre
            &&& e == TransferError::Unauthorized
        },
    }
}

/// The error a transfer fails with, following the validation order of the
/// transfer handler: a zero amount, then a missing sender wallet, then an
/// insufficient balance.
pub open spec fn transfer_error_for(pre: Ledger, caller: Seq<u8>, amount: u128) -> TransferError {
    if amount == 0 {
        TransferError::InvalidAmount
    } else if !has_wallet(pre.wallets@, caller) {
        TransferError::SenderWalletNotFound
    } else {
        TransferError::InsufficientBalance
    }
}

/// What `transfer` does: exactly when the amount is nonzero and the caller
/// owns a wallet holding at least that amount, the caller is debited, the
/// recipient (its wallet created on demand) is credited the same amount,
/// and one event is appended to the log; nothing else moves and the sum of
/// balances is conserved. A transfer to oneself leaves the balance as it
/// was. On failure the whole state is untouched and the error names the
/// first violated check.
pub open spec fn transfer_transition(
    pre: Ledger,
    post: Ledger,
    caller: Seq<u8>,
    to: Seq<u8>,
    amount: u128,
    now: u64,
    result: Result<bool, TransferError>,
) -> bool {
    &&& (result is Ok <==> amount != 0 && has_wallet(pre.wallets@, caller) && balance_of(
        pre.wallets@,
        caller,
    ) >= amount)
    &&& match result {
        Ok(b) => {
            &&& b == true
            &&& post.token == pre.token
            &&& post.owner == pre.owner
            &&& if to == caller {
                balance_of(post.wallets@, caller) == balance_of(pre.wallets@, caller)
            } else {
                &&& balance_of(post.wallets@, caller) == balance_of(pre.wallets@, caller)
                    - amount
                &&& balance_of(post.wallets@, to) == balance_of(pre.wallets@, to) + amount
            }
            &&& forall|id: Seq<u8>|
                id != caller && id != to ==> #[trigger] balance_of(post.wallets@, id)
                    == balance_of(pre.wallets@, id)
            &&& forall|id: Seq<u8>|
                #[trigger] has_wallet(post.wallets@, id) == (has_wallet(pre.wallets@, id) || id
                    == to)
            &&& sum_balances(post.wallets@) == sum_balances(pre.wallets@)
            &&& post.events@.len() == pre.events@.len() + 1
            &&& forall|k: int|
                0 <= k < pre.events@.len() ==> #[trigger] post.events@[k] == pre.events@[k]
            &&& post.events@.last()@ == (caller, to, amount, now)
        },
        Err(e) => {
            &&& post == pre
            &&& e == transfer_error_for(pre, caller, amount)
        },
    }
}

impl Ledger {
    /// Moves `amount` base units from the caller's wallet to `to`'s wallet,
    /// creating the latter on demand, and records the transfer with the
    /// host-supplied timestamp `now`. Validates everything first and
    /// commits as one atomic step: a failed transfer mutates nothing.
    pub fn transfer(&mut self, caller: &Identity, to: &Identity, amount: u128, now: u64) -> (result:
        Result<bool, TransferError>)
        requires
            old(self).wf(),
        ensures
            final(self).wf(),
            transfer_transition(*old(self), *final(self), caller@, to@, amount, now, result),
    {
        let ghost s0 = self.wallets@;
        if amount == 0 {
            return Err(TransferError::InvalidAmount);
        }
        let i = match find_wallet(&self.wallets, caller) {
            Some(i) => i,
            None => {
                return Err(TransferError::SenderWalletNotFound);
            },
        };
        proof {
            lemma_wallet_at(s0, i as int);
        }
        let from_balance = self.wallets[i].balance;
        if from_balance < amount {
            return Err(TransferError::InsufficientBalance);
        }
        // Checked debit; it cannot fail after the balance test, but the
        // failure path is handled rather than assumed away.
        let debited = match from_balance.checked_sub(amount) {
            Some(v) => v,
            None => {
                return Err(TransferError::OverflowError);
            },
        };
        let j_opt = find_wallet(&self.wallets, to);
        let to_balance: u128 = match j_opt {
            Some(j) => {
                if j == i {
                    debited
                } else {
                    self.wallets[j].balance
                }
            },
            None => 0,
        };
        proof {
            // The credit below cannot overflow: after the debit, the
            // recipient's balance is still bounded by the sum of all
            // balances, which well-formedness bounds by the total supply.
            if j_opt is Some && j_opt->0 != i {
                let j = j_opt->0 as int;
                let debited_wallet = Wallet { owner: s0[i as int].owner, balance: debited };
                lemma_sum_update(s0, i as int, debited_wallet);
                lemma_sum_element(s0.update(i as int, debited_wallet), j);
            }
        }
        let credited = match to_balance.checked_add(amount) {
            Some(v) => v,
            None => {
                return Err(TransferError::OverflowError);
            },
        };
        match j_opt {
            Some(j) => {
                if j == i {
                    // Transfer to oneself: debit and credit cancel out.
                    self.wallets[i].balance = credited;
                    proof {
                        let w = Wallet { owner: s0[i as int].owner, balance: credited };
                        assert(self.wallets@ =~= s0.update(i as int, w));
                        lemma_sum_update(s0, i as int, w);
                        assert forall|id: Seq<u8>| true implies {
                            &&& #[trigger] has_wallet(self.wallets@, id) == has_wallet(s0, id)
                            &&& (id == caller@ ==> balance_of(self.wallets@, id) == credited)
                            &&& (id != caller@ ==> balance_of(self.wallets@, id) == balance_of(
                                s0,
                                id,
                            ))
                        } by {
                            lemma_update_wallet(s0, i as int, w, id);
                        }
                    }
                } else {
                    self.wallets[i].balance = debited;
                    self.wallets[j].balance = credited;
                    proof {
                        let w_debited = Wallet { owner: s0[i as int].owner, balance: debited };
                        let s1 = s0.update(i as int, w_debited);
                        let w_credited = Wallet { owner: s1[j as int].owner, balance: credited };
                        assert(self.wallets@ =~= s1.update(j as int, w_credited));
                        lemma_wallet_at(s0, j as int);
                        lemma_sum_update(s0, i as int, w_debited);
                        lemma_update_wallet(s0, i as int, w_debited, to@);
                        lemma_sum_update(s1, j as int, w_credited);
                        assert forall|id: Seq<u8>| true implies {
                            &&& #[trigger] has_wallet(self.wallets@, id) == has_wallet(s0, id)
                            &&& (id == caller@ ==> balance_of(self.wallets@, id) == debited)
                            &&& (id == to@ ==> balance_of(self.wallets@, id) == credited)
                            &&& (id != caller@ && id != to@ ==> balance_of(self.wallets@, id)
                                == balance_of(s0, id))
                        } by {
                            lemma_update_wallet(s0, i as int, w_debited, id);
                            lemma_update_wallet(s1, j as int, w_credited, id);
                        }
                    }
                }
            },
            None => {
                // The recipient has no wallet: it is created on demand,
                // holding exactly the credited amount.
                self.wallets[i].balance = debited;
                let new_wallet = Wallet { owner: to.clone(), balance: credited };
                proof {
                    let w_debited = Wallet { owner: s0[i as int].owner, balance: debited };
                    let s1 = s0.update(i as int, w_debited);
                    assert(self.wallets@ =~= s1);
                    lemma_sum_update(s0, i as int, w_debited);
                    lemma_update_wallet(s0, i as int, w_debited, to@);
                    lemma_sum_push(s1, new_wallet);
                    assert forall|id: Seq<u8>| true implies {
                        &&& #[trigger] has_wallet(s1.push(new_wallet), id) == (has_wallet(s0, id)
                            || id == to@)
                        &&& (id == caller@ ==> balance_of(s1.push(new_wallet), id) == debited)
                        &&& (id == to@ ==> balance_of(s1.push(new_wallet), id) == credited)
                        &&& (id != caller@ && id != to@ ==> balance_of(s1.push(new_wallet), id)
                            == balance_of(s0, id))
                    } by {
                        lemma_update_wallet(s0, i as int, w_debited, id);
                        lemma_push_wallet(s1, new_wallet, id);
                    }
                }
                self.wallets.push(new_wallet);
            },
        }
        self.events.push(
            TransferEvent { from: caller.clone(), to: to.clone(), amount, timestamp: now },
        );
        Ok(true)
    }
}

impl Ledger {
    /// Creates a wallet for the calling identity with a zero balance.
    /// Fails with `AlreadyExists`, mutating nothing, if it already has one.
    pub fn create_wallet(&mut self, caller: &Identity) -> (result: Result<
        Identity,
        TransferError,
    >)
        requires
            old(self).wf(),
        ensures
            final(self).wf(),
            create_transition(*old(self), *final(self), caller@, result),
    {
        if self.has_wallet_for(caller) {
            return Err(TransferError::AlreadyExists);
        }
        let wallet = Wallet { owner: caller.clone(), balance: 0 };
        proof {
            lemma_sum_push(self.wallets@, wallet);
        }
        assert forall|id: Seq<u8>| true implies {
            &&& #[trigger] has_wallet(self.wallets@.push(wallet), id) == (has_wallet(
                self.wallets@,
                id,
            ) || id == caller@)
            &&& balance_of(self.wallets@.push(wallet), id) == if id == caller@ {
                0u128
            } else {
                balance_of(self.wallets@, id)
            }
        } by {
            lemma_push_wallet(self.wallets@, wallet, id);
        }
        self.wallets.push(wallet);
        Ok(caller.clone())
    }

    /// Hands the owner role to `new_owner`. Only the current owner may do
    /// this; anyone else gets `Unauthorized` and the state is untouched.
    pub fn change_owner(&mut self, caller: &Identity, new_owner: Identity) -> (result: Result<
        (),
        TransferError,
    >)
        requires
            old(self).wf(),
        ensures
            final(self).wf(),
            change_owner_transition(*old(self), *final(self), caller@, new_owner@, result),
    {
        if !self.is_owner(caller) {
            return Err(TransferError::Unauthorized);
        }
        self.owner = new_owner;
        Ok(())
    }
}

/// Ten to the `n`th power.
pub open spec fn pow10(n: nat) -> int
    decreases n,
{
    if n == 0 {
        1
    } else {
        10 * pow10((n - 1) as nat)
    }
}

/// Powers of ten are positive and grow with the exponent.
proof fn lemma_pow10_monotonic(a: nat, b: nat)
    requires
        a <= b,
    ensures
        0 < pow10(a) <= pow10(b),
    decreases b,
{
    if b > 0 {
        if a == b {
            lemma_pow10_monotonic((a - 1) as nat, (b - 1) as nat);
        } else {
            lemma_pow10_monotonic(a, (b - 1) as nat);
        }
    }
}

/// Scales a whole-token amount to base units by the token's number of
/// decimals, detecting overflow of the scale factor or of the product.
pub fn to_token_units(amount: u128, decimals: u8) -> (result: Result<u128, TransferError>)
    ensures
        pow10(decimals as nat) <= u128::MAX && amount * pow10(decimals as nat) <= u128::MAX
            ==> result == Ok::<u128, TransferError>((amount * pow10(decimals as nat)) as u128),
        !(pow10(decimals as nat) <= u128::MAX && amount * pow10(decimals as nat) <= u128::MAX)
            ==> result == Err::<u128, TransferError>(TransferError::OverflowError),
{
    let mut scale: u128 = 1;
    let mut k: u8 = 0;
    while k < decimals
        invariant
            k <= decimals,
            scale == pow10(k as nat),
        decreases decimals - k,
    {
        scale = match scale.checked_mul(10) {
            Some(v) => v,
            None => {
                proof {
                    lemma_pow10_monotonic((k + 1) as nat, decimals as nat);
                }
                return Err(TransferError::OverflowError);
            },
        };
        k = k + 1;
    }
    proof {
        lemma_pow10_monotonic(0, decimals as nat);
    }
    match amount.checked_mul(scale) {
        Some(v) => Ok(v),
        None => Err(TransferError::OverflowError),
    }
}

/// Finds the index of the wallet owned by `id`, if one exists.
fn find_wallet(wallets: &Vec<Wallet>, id: &Identity) -> (r: Option<usize>)
    ensures
        match r {
            Some(i) => 0 <= i < wallets@.len() && wallets@[i as int].owner@ == id@,
            None => !has_wallet(wallets@, id@),
        },
{
    let mut k: usize = 0;
    while k < wallets.len()
        invariant
            k <= wallets@.len(),
            forall|m: int| 0 <= m < k ==> #[trigger] wallets@[m].owner@ != id@,
        decreases wallets@.len() - k,
    {
        if wallets[k].owner.same(id) {
            return Some(k);
        }
        k = k + 1;
    }
    None
}

} // verus!
