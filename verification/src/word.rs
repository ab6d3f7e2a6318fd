//! Fixed-width 256-bit unsigned words: the value type of account balances,
//! storage slot keys and storage slot values.

use vstd::prelude::*;
use vstd::arithmetic::div_mod::lemma_fundamental_div_mod_converse;

verus! {

/// One 256-bit unsigned word, four 64-bit limbs, least significant first.
#[derive(Clone, Copy, PartialEq, Eq, Structural, Debug)]
pub struct U256 {
    pub l0: u64,
    pub l1: u64,
    pub l2: u64,
    pub l3: u64,
}

impl U256 {
    /// The mathematical value of the word.
    pub open spec fn as_nat(self) -> nat {
        (self.l0 as nat
            + self.l1 as nat * 0x10000000000000000
            + self.l2 as nat * 0x100000000000000000000000000000000
            + self.l3 as nat * 0x1000000000000000000000000000000000000000000000000) as nat
    }

    pub fn zero() -> (r: U256)
        ensures
            r.as_nat() == 0,
            r == (U256 { l0: 0, l1: 0, l2: 0, l3: 0 }),
    {
        U256 { l0: 0, l1: 0, l2: 0, l3: 0 }
    }

    pub fn from_u64(x: u64) -> (r: U256)
        ensures
            r.as_nat() == x,
            r == (U256 { l0: x, l1: 0, l2: 0, l3: 0 }),
    {
        U256 { l0: x, l1: 0, l2: 0, l3: 0 }
    }

    /// Every word's value is below 2^256.
    pub proof fn lemma_bound(self)
        ensures
            self.as_nat()
                < 0x10000000000000000000000000000000000000000000000000000000000000000,
    {
    }

    /// Words with equal values are equal limb for limb.
    pub proof fn lemma_as_nat_injective(a: U256, b: U256)
        requires
            a.as_nat() == b.as_nat(),
        ensures
            a == b,
    {
        let n = a.as_nat() as int;
        let qa0 = a.l1 as int + a.l2 as int * 0x10000000000000000
            + a.l3 as int * 0x100000000000000000000000000000000;
        let qb0 = b.l1 as int + b.l2 as int * 0x10000000000000000
            + b.l3 as int * 0x100000000000000000000000000000000;
        lemma_fundamental_div_mod_converse(n, 0x10000000000000000, qa0, a.l0 as int);
        lemma_fundamental_div_mod_converse(n, 0x10000000000000000, qb0, b.l0 as int);
        let q0 = n / 0x10000000000000000;
        let qa1 = a.l2 as int + a.l3 as int * 0x10000000000000000;
        let qb1 = b.l2 as int + b.l3 as int * 0x10000000000000000;
        lemma_fundamental_div_mod_converse(q0, 0x10000000000000000, qa1, a.l1 as int);
        lemma_fundamental_div_mod_converse(q0, 0x10000000000000000, qb1, b.l1 as int);
        let q1 = q0 / 0x10000000000000000;
        lemma_fundamental_div_mod_converse(q1, 0x10000000000000000, a.l3 as int, a.l2 as int);
        lemma_fundamental_div_mod_converse(q1, 0x10000000000000000, b.l3 as int, b.l2 as int);
    }

    /// Addition; `None` exactly when the mathematical sum does not fit in 256 bits.
    pub fn checked_add(self, o: U256) -> (r: Option<U256>)
        ensures
            r is Some <==> self.as_nat() + o.as_nat()
                < 0x10000000000000000000000000000000000000000000000000000000000000000,
            r is Some ==> r->Some_0.as_nat() == self.as_nat() + o.as_nat(),
    {
        let s0: u128 = self.l0 as u128 + o.l0 as u128;
        let r0: u64 = (s0 % 0x10000000000000000u128) as u64;
        let c0: u64 = (s0 / 0x10000000000000000u128) as u64;
        let s1: u128 = self.l1 as u128 + o.l1 as u128 + c0 as u128;
        let r1: u64 = (s1 % 0x10000000000000000u128) as u64;
        let c1: u64 = (s1 / 0x10000000000000000u128) as u64;
        let s2: u128 = self.l2 as u128 + o.l2 as u128 + c1 as u128;
        let r2: u64 = (s2 % 0x10000000000000000u128) as u64;
        let c2: u64 = (s2 / 0x10000000000000000u128) as u64;
        let s3: u128 = self.l3 as u128 + o.l3 as u128 + c2 as u128;
        let r3: u64 = (s3 % 0x10000000000000000u128) as u64;
        let c3: u64 = (s3 / 0x10000000000000000u128) as u64;
        let out = U256 { l0: r0, l1: r1, l2: r2, l3: r3 };
        proof {
            assert(s0 == c0 as int * 0x10000000000000000 + r0);
            assert(s1 == c1 as int * 0x10000000000000000 + r1);
            assert(s2 == c2 as int * 0x10000000000000000 + r2);
            assert(s3 == c3 as int * 0x10000000000000000 + r3);
            assert(self.as_nat() + o.as_nat() == out.as_nat()
                + c3 as nat * 0x10000000000000000000000000000000000000000000000000000000000000000);
            out.lemma_bound();
        }
        if c3 == 0 {
            Some(out)
        } else {
            None
        }
    }

    /// Subtraction; `None` exactly when the subtrahend exceeds the minuend.
    pub fn checked_sub(self, o: U256) -> (r: Option<U256>)
        ensures
            r is Some <==> o.as_nat() <= self.as_nat(),
            r is Some ==> r->Some_0.as_nat() == self.as_nat() - o.as_nat(),
    {
        let t0: u128 = self.l0 as u128 + 0x10000000000000000u128 - o.l0 as u128;
        let r0: u64 = (t0 % 0x10000000000000000u128) as u64;
        let b0: u64 = 1 - (t0 / 0x10000000000000000u128) as u64;
        let t1: u128 = self.l1 as u128 + 0x10000000000000000u128 - o.l1 as u128 - b0 as u128;
        let r1: u64 = (t1 % 0x10000000000000000u128) as u64;
        let b1: u64 = 1 - (t1 / 0x10000000000000000u128) as u64;
        let t2: u128 = self.l2 as u128 + 0x10000000000000000u128 - o.l2 as u128 - b1 as u128;
        let r2: u64 = (t2 % 0x10000000000000000u128) as u64;
        let b2: u64 = 1 - (t2 / 0x10000000000000000u128) as u64;
        let t3: u128 = self.l3 as u128 + 0x10000000000000000u128 - o.l3 as u128 - b2 as u128;
        let r3: u64 = (t3 % 0x10000000000000000u128) as u64;
        let b3: u64 = 1 - (t3 / 0x10000000000000000u128) as u64;
        let out = U256 { l0: r0, l1: r1, l2: r2, l3: r3 };
        proof {
            assert(t0 == (t0 / 0x10000000000000000u128) as int * 0x10000000000000000 + r0);
            assert(t1 == (t1 / 0x10000000000000000u128) as int * 0x10000000000000000 + r1);
            assert(t2 == (t2 / 0x10000000000000000u128) as int * 0x10000000000000000 + r2);
            assert(t3 == (t3 / 0x10000000000000000u128) as int * 0x10000000000000000 + r3);
            assert(self.as_nat() - o.as_nat() == out.as_nat()
                - b3 as int * 0x10000000000000000000000000000000000000000000000000000000000000000);
            out.lemma_bound();
            self.lemma_bound();
        }
        if b3 == 0 {
            Some(out)
        } else {
            None
        }
    }

    /// Strict comparison of the mathematical values.
    pub fn lt(self, o: U256) -> (r: bool)
        ensures
            r <==> self.as_nat() < o.as_nat(),
    {
        if self.l3 != o.l3 {
            self.l3 < o.l3
        } else if self.l2 != o.l2 {
            self.l2 < o.l2
        } else if self.l1 != o.l1 {
            self.l1 < o.l1
        } else {
            self.l0 < o.l0
        }
    }
}

} // verus!
