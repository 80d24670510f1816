//! The reservation collaborator: a balance book that can hold an amount
//! of an account's free balance in reserve.  Deposits taken by the
//! registry are reserved here and released only by functionality outside
//! this core.

use vstd::prelude::*;
use crate::storage_map::StorageMap;
use crate::types::{AccountId, Balance, DispatchError};

verus! {

/// Free and reserved balance of one account.
#[derive(Clone, Copy, Debug, PartialEq, Eq, Structural)]
pub struct AccountData {
    pub free: Balance,
    pub reserved: Balance,
}

impl View for AccountData {
    type V = AccountData;

    open spec fn view(&self) -> AccountData {
        *self
    }
}

/// Free balance of `who` under the balance book `l`; an unknown account
/// holds nothing.
pub open spec fn free_of(l: Map<AccountId, AccountData>, who: AccountId) -> Balance {
    if l.contains_key(who) {
        l[who].free
    } else {
        0
    }
}

/// Reserved balance of `who` under the balance book `l`.
pub open spec fn reserved_of(l: Map<AccountId, AccountData>, who: AccountId) -> Balance {
    if l.contains_key(who) {
        l[who].reserved
    } else {
        0
    }
}

/// The balance book as a reservation takes it: `amount` moves from the
/// free to the reserved balance of `who`.
pub open spec fn reserve_effect(
    l: Map<AccountId, AccountData>,
    who: AccountId,
    amount: Balance,
) -> Map<AccountId, AccountData> {
    l.insert(
        who,
        AccountData {
            free: (free_of(l, who) - amount) as u64,
            reserved: (reserved_of(l, who) + amount) as u64,
        },
    )
}

/// The balance book.
pub struct Ledger {
    accounts: StorageMap<AccountData>,
}

impl View for Ledger {
    type V = Map<AccountId, AccountData>;

    closed spec fn view(&self) -> Map<AccountId, AccountData> {
        self.accounts@
    }
}

impl Ledger {
    /// Every account's total balance is representable, so moving an
    /// amount between its two halves never wraps.
    pub closed spec fn wf(&self) -> bool {
        &&& self.accounts.wf()
        &&& forall|k: AccountId|
            self.accounts@.contains_key(k) ==> #[trigger] self.accounts@[k].free
                + self.accounts@[k].reserved <= u64::MAX
    }

    /// An empty balance book.
    pub fn new() -> (r: Self)
        ensures
            r.wf(),
            r@ == Map::<AccountId, AccountData>::empty(),
    {
        Ledger { accounts: StorageMap::new() }
    }

    /// Endow `who` with the given balances, replacing whatever it held.
    pub fn set_balance(&mut self, who: AccountId, free: Balance, reserved: Balance)
        requires
            old(self).wf(),
            free + reserved <= u64::MAX,
        ensures
            final(self).wf(),
            final(self)@ == old(self)@.insert(who, AccountData { free, reserved }),
    {
        self.accounts.insert(who, AccountData { free, reserved });
    }

    /// The free balance of `who`.
    pub fn free_balance(&self, who: AccountId) -> (r: Balance)
        requires
            self.wf(),
        ensures
            r == free_of(self@, who),
    {
        match self.accounts.get(who) {
            Some(a) => a.free,
            None => 0,
        }
    }

    /// The reserved balance of `who`.
    pub fn reserved_balance(&self, who: AccountId) -> (r: Balance)
        requires
            self.wf(),
        ensures
            r == reserved_of(self@, who),
    {
        match self.accounts.get(who) {
            Some(a) => a.reserved,
            None => 0,
        }
    }

    /// Whether a reservation of `amount` against `who` would succeed.
    pub fn can_reserve(&self, who: AccountId, amount: Balance) -> (r: bool)
        requires
            self.wf(),
        ensures
            r == (free_of(self@, who) >= amount),
    {
        self.free_balance(who) >= amount
    }

    /// Move `amount` of `who`'s free balance into reserve.  Fails, and
    /// changes nothing, when the free balance does not cover the amount.
    pub fn reserve(&mut self, who: AccountId, amount: Balance) -> (r: Result<(), DispatchError>)
        requires
            old(self).wf(),
        ensures
            final(self).wf(),
            match r {
                Ok(()) => free_of(old(self)@, who) >= amount && final(self)@ == reserve_effect(
                    old(self)@,
                    who,
                    amount,
                ),
                Err(e) => e == DispatchError::InsufficientBalance && free_of(old(self)@, who)
                    < amount && final(self)@ == old(self)@,
            },
    {
        let free = self.free_balance(who);
        if free < amount {
            return Err(DispatchError::InsufficientBalance);
        }
        let reserved = self.reserved_balance(who);
        self.accounts.insert(
            who,
            AccountData { free: free - amount, reserved: reserved + amount },
        );
        Ok(())
    }
}

} // verus!
