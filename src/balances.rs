//! The escrow ledger: a free and a reserved balance per account, with the
//! reserve, unreserve and transfer primitives the campaign ledger settles with.
use std::collections::HashMap;
use vstd::prelude::*;

verus! {

broadcast use vstd::std_specs::hash::group_hash_axioms;

pub type AccountId = u64;

pub type Balance = u128;

/// Why a balance operation was refused.
#[derive(Debug, Clone, Copy, PartialEq, Eq, Structural)]
pub enum BalanceError {
    /// The account's free balance does not cover the amount.
    InsufficientBalance,
    /// The receiving account's total balance would exceed `u128::MAX`.
    BalanceTooHigh,
}

/// Free and reserved balances of every account. An account that was never
/// touched holds zero of each.
pub struct Balances {
    free: HashMap<AccountId, Balance>,
    reserved: HashMap<AccountId, Balance>,
}

/// The value `m` holds at `a`, zero where it holds none.
pub open spec fn amount_at(m: Map<AccountId, Balance>, a: AccountId) -> nat {
    if m.contains_key(a) {
        m[a] as nat
    } else {
        0
    }
}

impl Balances {
    /// The free balance of `a`.
    pub closed spec fn free_of(&self, a: AccountId) -> nat {
        amount_at(self.free@, a)
    }

    /// The reserved balance of `a`.
    pub closed spec fn reserved_of(&self, a: AccountId) -> nat {
        amount_at(self.reserved@, a)
    }

    /// Every account's free and reserved balance together fit in a `Balance`.
    pub open spec fn wf(&self) -> bool {
        forall|a: AccountId| #[trigger] self.free_of(a) + self.reserved_of(a) <= u128::MAX
    }

    /// `self` and `other` agree on every account but `a`.
    pub open spec fn same_except(&self, other: &Balances, a: AccountId) -> bool {
        forall|b: AccountId|
            #![trigger self.free_of(b)]
            #![trigger self.reserved_of(b)]
            b != a ==> (self.free_of(b) == other.free_of(b) && self.reserved_of(b)
                == other.reserved_of(b))
    }

    /// An empty ledger.
    pub fn new() -> (r: Balances)
        ensures
            r.wf(),
            forall|a: AccountId|
                #![trigger r.free_of(a)]
                #![trigger r.reserved_of(a)]
                r.free_of(a) == 0 && r.reserved_of(a) == 0,
    {
        Balances { free: HashMap::new(), reserved: HashMap::new() }
    }

    /// The free balance of `who`.
    pub fn free_balance(&self, who: AccountId) -> (r: Balance)
        ensures
            r == self.free_of(who),
    {
        match self.free.get(&who) {
            Some(v) => *v,
            None => 0,
        }
    }

    /// The reserved balance of `who`.
    pub fn reserved_balance(&self, who: AccountId) -> (r: Balance)
        ensures
            r == self.reserved_of(who),
    {
        match self.reserved.get(&who) {
            Some(v) => *v,
            None => 0,
        }
    }

    /// Sets the free balance of `who` to `value`. Refused, with nothing
    /// changed, where the account's total would exceed `u128::MAX`.
    pub fn set_free_balance(&mut self, who: AccountId, value: Balance) -> (r: Result<(), BalanceError>)
        requires
            old(self).wf(),
        ensures
            final(self).wf(),
            r is Ok <==> value + old(self).reserved_of(who) <= u128::MAX,
            r is Ok ==> final(self).free_of(who) == value && final(self).reserved_of(who)
                == old(self).reserved_of(who) && final(self).same_except(old(self), who),
            r is Err ==> r == Err::<(), _>(BalanceError::BalanceTooHigh) && *final(self) == *old(self),
    {
        let reserved = self.reserved_balance(who);
        if value > u128::MAX - reserved {
            return Err(BalanceError::BalanceTooHigh);
        }
        self.free.insert(who, value);
        proof {
            assert forall|a: AccountId| #[trigger]
                self.free_of(a) + self.reserved_of(a) <= u128::MAX by {
                if a != who {
                    assert(self.free_of(a) == old(self).free_of(a));
                }
            }
        }
        Ok(())
    }

    /// Moves `value` of `who`'s free balance to its reserved balance; refused,
    /// with nothing changed, where the free balance does not cover it.
    pub fn reserve(&mut self, who: AccountId, value: Balance) -> (r: Result<(), BalanceError>)
        requires
            old(self).wf(),
        ensures
            final(self).wf(),
            r is Ok <==> value <= old(self).free_of(who),
            r is Ok ==> final(self).free_of(who) == old(self).free_of(who) - value
                && final(self).reserved_of(who) == old(self).reserved_of(who) + value
                && final(self).same_except(old(self), who),
            r is Err ==> r == Err::<(), _>(BalanceError::InsufficientBalance) && *final(self) == *old(self),
    {
        let free = self.free_balance(who);
        if value > free {
            return Err(BalanceError::InsufficientBalance);
        }
        let reserved = self.reserved_balance(who);
        self.free.insert(who, free - value);
        self.reserved.insert(who, reserved + value);
        proof {
            assert forall|a: AccountId| #[trigger]
                self.free_of(a) + self.reserved_of(a) <= u128::MAX by {
                if a != who {
                    assert(self.free_of(a) == old(self).free_of(a));
                    assert(self.reserved_of(a) == old(self).reserved_of(a));
                }
            }
        }
        Ok(())
    }

    /// Moves up to `value` of `who`'s reserved balance back to its free
    /// balance, and returns the part of `value` that was not reserved.
    pub fn unreserve(&mut self, who: AccountId, value: Balance) -> (r: Balance)
        requires
            old(self).wf(),
        ensures
            final(self).wf(),
            r == value - min_nat(value as nat, old(self).reserved_of(who)),
            final(self).reserved_of(who) == old(self).reserved_of(who) - min_nat(
                value as nat,
                old(self).reserved_of(who),
            ),
            final(self).free_of(who) == old(self).free_of(who) + min_nat(
                value as nat,
                old(self).reserved_of(who),
            ),
            final(self).same_except(old(self), who),
    {
        let free = self.free_balance(who);
        let reserved = self.reserved_balance(who);
        let actual = if value < reserved {
            value
        } else {
            reserved
        };
        self.free.insert(who, free + actual);
        self.reserved.insert(who, reserved - actual);
        proof {
            assert forall|a: AccountId| #[trigger]
                self.free_of(a) + self.reserved_of(a) <= u128::MAX by {
                if a != who {
                    assert(self.free_of(a) == old(self).free_of(a));
                    assert(self.reserved_of(a) == old(self).reserved_of(a));
                }
            }
        }
        value - actual
    }

    /// Moves `value` from `from`'s free balance to `to`'s. Refused, with
    /// nothing changed, where `from`'s free balance does not cover it or
    /// `to`'s total would exceed `u128::MAX`. A transfer to oneself changes
    /// nothing.
    pub fn transfer(&mut self, from: AccountId, to: AccountId, value: Balance) -> (r: Result<
        (),
        BalanceError,
    >)
        requires
            old(self).wf(),
        ensures
            final(self).wf(),
            r is Ok <==> value <= old(self).free_of(from) && (from == to || old(self).free_of(to)
                + old(self).reserved_of(to) + value <= u128::MAX),
            value > old(self).free_of(from) ==> r == Err::<(), _>(BalanceError::InsufficientBalance),
            value <= old(self).free_of(from) && r is Err ==> r == Err::<(), _>(
                BalanceError::BalanceTooHigh,
            ),
            r is Ok && from != to ==> final(self).free_of(from) == old(self).free_of(from) - value
                && final(self).free_of(to) == old(self).free_of(to) + value && (forall|b: AccountId|
                b != from && b != to ==> (#[trigger] final(self).free_of(b) == old(self).free_of(b)))
                && (forall|b: AccountId| #[trigger] final(self).reserved_of(b) == old(self).reserved_of(b)),
            r is Err || from == to ==> *final(self) == *old(self),
    {
        let from_free = self.free_balance(from);
        if value > from_free {
            return Err(BalanceError::InsufficientBalance);
        }
        if from == to {
            return Ok(());
        }
        let to_free = self.free_balance(to);
        let to_reserved = self.reserved_balance(to);
        if to_free > u128::MAX - to_reserved || value > u128::MAX - to_reserved - to_free {
            return Err(BalanceError::BalanceTooHigh);
        }
        self.free.insert(from, from_free - value);
        self.free.insert(to, to_free + value);
        proof {
            assert forall|a: AccountId| #[trigger]
                self.free_of(a) + self.reserved_of(a) <= u128::MAX by {
                if a != from && a != to {
                    assert(self.free_of(a) == old(self).free_of(a));
                }
                assert(self.reserved_of(a) == old(self).reserved_of(a));
            }
        }
        Ok(())
    }
}

/// The smaller of `a` and `b`.
pub open spec fn min_nat(a: nat, b: nat) -> nat {
    if a < b {
        a
    } else {
        b
    }
}

} // verus!
