use vstd::prelude::*;

use vstd::arithmetic::div_mod::lemma_fundamental_div_mod_converse;

use crate::error::MatchError;

verus! {

/// Number of ticks in one whole unit of price: five decimal digits.
pub const SCALER: u64 = 100000;

/// An exact fixed-point price: `integral + fractional / scaler`.
///
/// Two prices are equal exactly when their parts are equal; the scaler is
/// the same for every price.
#[derive(Debug, Clone, Copy, PartialEq, Eq, Structural, Hash)]
pub struct Price {
    integral: u64,
    fractional: u64,
    scaler: u64,
}

impl Price {
    #[verifier::type_invariant]
    spec fn well_formed(self) -> bool {
        &&& self.scaler == SCALER
        &&& self.fractional < SCALER
        &&& self.integral * SCALER + self.fractional <= u64::MAX
    }

    /// The whole part of the price.
    pub closed spec fn spec_integral(self) -> nat {
        self.integral as nat
    }

    /// The fractional part of the price, in ticks below one unit.
    pub closed spec fn spec_fractional(self) -> nat {
        self.fractional as nat
    }

    /// The price in ticks: `integral * SCALER + fractional`.
    pub open spec fn value(self) -> nat {
        (self.spec_integral() * SCALER + self.spec_fractional()) as nat
    }

    /// The value in ticks as a machine integer, the key of the price's level
    /// in a book.
    pub open spec fn key(self) -> u64 {
        self.value() as u64
    }

    /// The price that a value in ticks stands for.
    pub closed spec fn spec_from_ticks(ticks: u64) -> Price {
        Price { integral: ticks / SCALER, fractional: ticks % SCALER, scaler: SCALER }
    }

    /// Builds a price from its whole and fractional parts; a fractional part
    /// of `SCALER` or more, or a value beyond `u64::MAX` ticks, is refused.
    pub fn new(integral: u64, fractional: u64) -> (r: Result<Price, MatchError>)
        ensures
            (fractional < SCALER && integral * SCALER + fractional <= u64::MAX) <==> r is Ok,
            r is Ok ==> r->Ok_0.spec_integral() == integral && r->Ok_0.spec_fractional()
                == fractional,
            r is Ok ==> r->Ok_0 == Price::spec_from_ticks((integral * SCALER + fractional) as u64),
            r is Err ==> r->Err_0 == MatchError::InvalidPrice,
    {
        if fractional >= SCALER {
            return Err(MatchError::InvalidPrice);
        }
        let limit: u64 = (u64::MAX - fractional) / SCALER;
        if integral > limit {
            proof {
                assert(integral * SCALER + fractional > u64::MAX) by (nonlinear_arith)
                    requires
                        integral > limit,
                        limit == (u64::MAX - fractional) / SCALER as int,
                        fractional < SCALER,
                ;
            }
            Err(MatchError::InvalidPrice)
        } else {
            proof {
                assert(integral * SCALER + fractional <= u64::MAX) by (nonlinear_arith)
                    requires
                        integral <= limit,
                        limit == (u64::MAX - fractional) / SCALER as int,
                        fractional < SCALER,
                ;
                lemma_fundamental_div_mod_converse(
                    integral * SCALER + fractional,
                    SCALER as int,
                    integral as int,
                    fractional as int,
                );
            }
            Ok(Price { integral, fractional, scaler: SCALER })
        }
    }

    /// Builds the price that stands `ticks` ticks above zero.
    pub fn from_ticks(ticks: u64) -> (r: Price)
        ensures
            r == Price::spec_from_ticks(ticks),
            r.value() == ticks,
            r.spec_integral() == ticks / SCALER,
            r.spec_fractional() == ticks % SCALER,
    {
        Price { integral: ticks / SCALER, fractional: ticks % SCALER, scaler: SCALER }
    }

    /// The price in ticks, `integral * SCALER + fractional`.
    pub fn ticks(&self) -> (r: u64)
        ensures
            r == self.value(),
            r == self.key(),
    {
        proof {
            use_type_invariant(self);
        }
        self.integral * SCALER + self.fractional
    }

    pub fn integral(&self) -> (r: u64)
        ensures
            r == self.spec_integral(),
    {
        self.integral
    }

    pub fn fractional(&self) -> (r: u64)
        ensures
            r == self.spec_fractional(),
    {
        self.fractional
    }

    pub fn scaler(&self) -> (r: u64)
        ensures
            r == SCALER,
    {
        proof {
            use_type_invariant(self);
        }
        self.scaler
    }
}

/// Reconstructing a price built from a value in ticks gives that value back.
pub proof fn lemma_price_round_trip(ticks: u64)
    ensures
        Price::spec_from_ticks(ticks).value() == ticks,
{
}

/// Two prices built from values in ticks are equal exactly when the values
/// are, so a price can serve as a map key.
pub proof fn lemma_price_key(a: u64, b: u64)
    ensures
        (Price::spec_from_ticks(a) == Price::spec_from_ticks(b)) <==> a == b,
{
    if Price::spec_from_ticks(a) == Price::spec_from_ticks(b) {
        assert(a == (a / SCALER) * SCALER + a % SCALER);
        assert(b == (b / SCALER) * SCALER + b % SCALER);
    }
}

} // verus!
