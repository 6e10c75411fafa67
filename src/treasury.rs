//! Treasury and burn accounting: the two running balances fed by fees.
use crate::fees::{platform_fee_of, split_creation_fee, split_resolution_pool, treasury_share};
use crate::types::Error;
use vstd::prelude::*;

verus! {

/// The admin-withdrawable balance and the cumulative burned amount.
#[derive(Clone, Copy, Debug, PartialEq, Eq, Structural)]
pub struct Treasury {
    pub balance: i128,
    pub burned: i128,
}

impl Treasury {
    /// Both running totals are non-negative.
    pub open spec fn wf(self) -> bool {
        self.balance >= 0 && self.burned >= 0
    }

    /// Whether a creation fee can be booked without leaving the `i128` range.
    pub open spec fn creation_fee_fits(self, fee: int) -> bool {
        &&& self.balance + treasury_share(fee) <= i128::MAX
        &&& self.burned + (fee - treasury_share(fee)) <= i128::MAX
    }

    /// Whether the platform fee of `total_pool` can be booked without leaving the `i128` range.
    pub open spec fn resolution_fee_fits(self, total_pool: int) -> bool {
        self.balance + platform_fee_of(total_pool) <= i128::MAX
    }

    /// Both totals start at zero.
    pub fn new() -> (r: Treasury)
        ensures
            r.balance == 0,
            r.burned == 0,
    {
        Treasury { balance: 0, burned: 0 }
    }

    /// Books a creation fee: its treasury share goes to the balance, the rest
    /// to the burned total.  Returns the amount to burn.
    pub fn apply_creation_fee(&mut self, fee: i128) -> (r: Result<i128, Error>)
        requires
            old(self).wf(),
            0 <= fee,
        ensures
            final(self).wf(),
            r is Ok <==> old(self).creation_fee_fits(fee as int),
            r matches Ok(to_burn) ==> {
                &&& to_burn == fee - treasury_share(fee as int)
                &&& final(self).balance == old(self).balance + treasury_share(fee as int)
                &&& final(self).burned == old(self).burned + to_burn
            },
            r matches Err(e) ==> e == Error::Overflow && *final(self) == *old(self),
    {
        let (to_treasury, to_burn) = split_creation_fee(fee);
        match (self.balance.checked_add(to_treasury), self.burned.checked_add(to_burn)) {
            (Some(balance), Some(burned)) => {
                self.balance = balance;
                self.burned = burned;
                Ok(to_burn)
            },
            _ => Err(Error::Overflow),
        }
    }

    /// Takes the platform fee of a resolved market's total pool into the
    /// balance.  Returns `(prize_pool, platform_fee)`.
    pub fn apply_resolution_fee(&mut self, total_pool: i128) -> (r: Result<(i128, i128), Error>)
        requires
            old(self).wf(),
            0 <= total_pool,
        ensures
            final(self).wf(),
            r is Ok <==> old(self).resolution_fee_fits(total_pool as int),
            r matches Ok(split) ==> {
                &&& split.1 == platform_fee_of(total_pool as int)
                &&& split.0 == total_pool - split.1
                &&& final(self).balance == old(self).balance + split.1
                &&& final(self).burned == old(self).burned
            },
            r matches Err(e) ==> e == Error::Overflow && *final(self) == *old(self),
    {
        let (prize_pool, platform_fee) = split_resolution_pool(total_pool);
        match self.balance.checked_add(platform_fee) {
            Some(balance) => {
                self.balance = balance;
                Ok((prize_pool, platform_fee))
            },
            None => Err(Error::Overflow),
        }
    }

    /// Takes `amount` out of the balance.
    pub fn withdraw(&mut self, amount: i128) -> (r: Result<(), Error>)
        requires
            old(self).wf(),
        ensures
            final(self).wf(),
            r == (if amount < 0 {
                Err(Error::InvalidAmount)
            } else if amount > old(self).balance {
                Err(Error::InsufficientTreasury)
            } else {
                Ok(())
            }),
            r is Ok ==> final(self).balance == old(self).balance - amount && final(self).burned
                == old(self).burned,
            r is Err ==> *final(self) == *old(self),
    {
        if amount < 0 {
            return Err(Error::InvalidAmount);
        }
        if amount > self.balance {
            return Err(Error::InsufficientTreasury);
        }
        self.balance = self.balance - amount;
        Ok(())
    }
}

} // verus!
