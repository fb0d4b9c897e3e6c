use vstd::prelude::*;

use crate::account::AccountId;
use crate::store::AllowanceMap;
use crate::store::BalanceMap;

verus! {

/// The notification owed to the host's event sink after each successful
/// balance-moving operation: `balance` units went from `from` to `to`.
/// The ledger returns it; the hosting environment emits it.
#[derive(Clone, Copy, PartialEq, Eq, Debug, Structural)]
pub struct Transfer {
    pub from: AccountId,
    pub to: AccountId,
    pub balance: u128,
}

/// Why an operation was refused. Every refusal leaves the ledger exactly as
/// it was.
#[derive(Clone, Copy, PartialEq, Eq, Debug, Structural)]
pub enum Error {
    /// The acting account's balance, or the caller's remaining allowance,
    /// is smaller than the requested amount.
    InSufficientBalance,
}

/// A fungible-token ledger. A fixed `total_supply` is credited to the
/// constructing caller and from then on only moved, never created or
/// destroyed: in every well-formed ledger the balances sum to the total
/// supply.
pub struct Erc20 {
    total_supply: u128,
    balances: BalanceMap,
    allowances: AllowanceMap,
}

impl Erc20 {
    /// The fixed number of units in circulation.
    pub closed spec fn spec_total_supply(self) -> u128 {
        self.total_supply
    }

    /// The units `account` holds; zero for an account never touched.
    pub closed spec fn spec_balance_of(self, account: AccountId) -> u128 {
        self.balances.get_spec(account)
    }

    /// The units `spender` may still move out of `owner`'s balance; zero for
    /// a pair never granted anything.
    pub closed spec fn spec_allowance(self, owner: AccountId, spender: AccountId) -> u128 {
        self.allowances.get_spec(owner, spender)
    }

    /// The sum of every account's balance.
    pub closed spec fn spec_sum_of_balances(self) -> int {
        self.balances.sum()
    }

    /// Well-formedness: the stores keep one entry per key, and the balances
    /// sum to the total supply. `new` establishes it and every operation
    /// preserves it.
    pub closed spec fn wf(self) -> bool {
        &&& self.balances.wf()
        &&& self.allowances.wf()
        &&& self.spec_sum_of_balances() == self.spec_total_supply()
    }

    /// Create a ledger whose entire supply belongs to `caller` — the
    /// identity the hosting environment reports for the constructing call —
    /// with no allowance granted to anyone.
    pub fn new(total_supply: u128, caller: AccountId) -> (r: Erc20)
        ensures
            r.wf(),
            r.spec_total_supply() == total_supply,
            r.spec_balance_of(caller) == total_supply,
            forall|a: AccountId| a != caller ==> r.spec_balance_of(a) == 0,
            forall|o: AccountId, s: AccountId| r.spec_allowance(o, s) == 0,
    {
        let mut balances = BalanceMap::new();
        balances.set(caller, total_supply);
        Erc20 { total_supply, balances, allowances: AllowanceMap::new() }
    }

    pub fn total_supply(&self) -> (r: u128)
        ensures
            r == self.spec_total_supply(),
    {
        self.total_supply
    }

    pub fn balance_of(&self, owner: AccountId) -> (r: u128)
        ensures
            r == self.spec_balance_of(owner),
    {
        self.balances.get(owner)
    }

    pub fn allowance(&self, owner: AccountId, spender: AccountId) -> (r: u128)
        ensures
            r == self.spec_allowance(owner, spender),
    {
        self.allowances.get(owner, spender)
    }

    /// Move `balance` units from the calling account to `to`. Succeeds
    /// exactly when the caller holds at least `balance` units — a transfer
    /// of zero, or from an account to itself, is a degenerate success — and
    /// returns the notification owed to the event sink. A refusal leaves
    /// the ledger untouched.
    pub fn transfer(&mut self, caller: AccountId, to: AccountId, balance: u128) -> (r: Result<
        Transfer,
        Error,
    >)
        requires
            old(self).wf(),
        ensures
            final(self).wf(),
            final(self).spec_total_supply() == old(self).spec_total_supply(),
            r is Ok <==> balance <= old(self).spec_balance_of(caller),
            r is Err ==> *final(self) == *old(self) && r == Err::<Transfer, Error>(
                Error::InSufficientBalance,
            ),
            r is Ok ==> r == Ok::<Transfer, Error>(Transfer { from: caller, to, balance }),
            r is Ok && caller != to ==> final(self).spec_balance_of(caller) == old(
                self,
            ).spec_balance_of(caller) - balance && final(self).spec_balance_of(to) == old(
                self,
            ).spec_balance_of(to) + balance,
            r is Ok && caller == to ==> final(self).spec_balance_of(caller) == old(
                self,
            ).spec_balance_of(caller),
            forall|x: AccountId|
                x != caller && x != to ==> final(self).spec_balance_of(x) == old(
                    self,
                ).spec_balance_of(x),
            forall|o: AccountId, s: AccountId|
                final(self).spec_allowance(o, s) == old(self).spec_allowance(o, s),
    {
        self.transfer_help(caller, to, balance)
    }

    /// Move `balance` units owned by `from` to `to`, on the strength of the
    /// allowance `from` granted to the caller. The allowance check and the
    /// balance check are independent; both must pass, and only then is the
    /// allowance reduced by exactly the amount moved. A refusal of either
    /// kind leaves balances and allowances untouched.
    pub fn transfer_from(
        &mut self,
        caller: AccountId,
        from: AccountId,
        to: AccountId,
        balance: u128,
    ) -> (r: Result<Transfer, Error>)
        requires
            old(self).wf(),
        ensures
            final(self).wf(),
            final(self).spec_total_supply() == old(self).spec_total_supply(),
            r is Ok <==> balance <= old(self).spec_allowance(from, caller) && balance <= old(
                self,
            ).spec_balance_of(from),
            r is Err ==> *final(self) == *old(self) && r == Err::<Transfer, Error>(
                Error::InSufficientBalance,
            ),
            r is Ok ==> r == Ok::<Transfer, Error>(Transfer { from, to, balance }),
            r is Ok ==> final(self).spec_allowance(from, caller) == old(self).spec_allowance(
                from,
                caller,
            ) - balance,
            forall|o: AccountId, s: AccountId|
                !(o == from && s == caller) ==> final(self).spec_allowance(o, s) == old(
                    self,
                ).spec_allowance(o, s),
            r is Ok && from != to ==> final(self).spec_balance_of(from) == old(
                self,
            ).spec_balance_of(from) - balance && final(self).spec_balance_of(to) == old(
                self,
            ).spec_balance_of(to) + balance,
            r is Ok && from == to ==> final(self).spec_balance_of(from) == old(
                self,
            ).spec_balance_of(from),
            forall|x: AccountId|
                x != from && x != to ==> final(self).spec_balance_of(x) == old(
                    self,
                ).spec_balance_of(x),
    {
        let current = self.allowance(from, caller);
        if current < balance {
            return Err(Error::InSufficientBalance);
        }
        match self.transfer_help(from, to, balance) {
            Ok(notification) => {
                self.allowances.set(from, caller, current - balance);
                Ok(notification)
            },
            Err(e) => Err(e),
        }
    }

    /// Record that `spender` may move up to `amount` units out of `owner`'s
    /// balance. Granting an allowance is the hosting environment's affair —
    /// the core ledger has no approval operation of its own — so this is the
    /// hook through which the host installs one; no balance moves.
    pub fn set_allowance(&mut self, owner: AccountId, spender: AccountId, amount: u128)
        requires
            old(self).wf(),
        ensures
            final(self).wf(),
            final(self).spec_total_supply() == old(self).spec_total_supply(),
            final(self).spec_allowance(owner, spender) == amount,
            forall|o: AccountId, s: AccountId|
                !(o == owner && s == spender) ==> final(self).spec_allowance(o, s) == old(
                    self,
                ).spec_allowance(o, s),
            forall|a: AccountId| final(self).spec_balance_of(a) == old(self).spec_balance_of(a),
    {
        self.allowances.set(owner, spender, amount);
    }

    /// The shared transfer step: debit `from`, credit `to`, report the
    /// notification. Crediting cannot overflow because the debited ledger's
    /// balances sum to `total_supply - balance`, which bounds the credited
    /// account's old balance.
    fn transfer_help(&mut self, from: AccountId, to: AccountId, balance: u128) -> (r: Result<
        Transfer,
        Error,
    >)
        requires
            old(self).wf(),
        ensures
            final(self).wf(),
            final(self).spec_total_supply() == old(self).spec_total_supply(),
            r is Ok <==> balance <= old(self).spec_balance_of(from),
            r is Err ==> *final(self) == *old(self) && r == Err::<Transfer, Error>(
                Error::InSufficientBalance,
            ),
            r is Ok ==> r == Ok::<Transfer, Error>(Transfer { from, to, balance }),
            r is Ok && from != to ==> final(self).spec_balance_of(from) == old(
                self,
            ).spec_balance_of(from) - balance && final(self).spec_balance_of(to) == old(
                self,
            ).spec_balance_of(to) + balance,
            r is Ok && from == to ==> final(self).spec_balance_of(from) == old(
                self,
            ).spec_balance_of(from),
            forall|x: AccountId|
                x != from && x != to ==> final(self).spec_balance_of(x) == old(
                    self,
                ).spec_balance_of(x),
            forall|o: AccountId, s: AccountId|
                final(self).spec_allowance(o, s) == old(self).spec_allowance(o, s),
    {
        let from_balance = self.balance_of(from);
        if from_balance < balance {
            return Err(Error::InSufficientBalance);
        }
        self.balances.set(from, from_balance - balance);
        let to_balance = self.balance_of(to);
        proof {
            self.balances.lemma_get_le_sum(to);
        }
        self.balances.set(to, to_balance + balance);
        Ok(Transfer { from, to, balance })
    }
}

/// Conservation: in every well-formed ledger the balances — each account
/// counted once — sum to exactly the total supply.
pub proof fn lemma_conservation(l: Erc20)
    requires
        l.wf(),
    ensures
        l.spec_sum_of_balances() == l.spec_total_supply(),
{
}

/// A single account can never hold more than the total supply.
pub proof fn lemma_balance_bounded(l: Erc20, a: AccountId)
    requires
        l.wf(),
    ensures
        l.spec_balance_of(a) <= l.spec_total_supply(),
{
    l.balances.lemma_get_le_sum(a);
}

/// Non-negativity: every balance and every allowance reading is at least
/// zero, in any ledger whatever.
pub proof fn lemma_non_negative(l: Erc20, a: AccountId, owner: AccountId, spender: AccountId)
    ensures
        0 <= l.spec_balance_of(a),
        0 <= l.spec_allowance(owner, spender),
{
}

} // verus!
