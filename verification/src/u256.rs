use vstd::prelude::*;
use vstd::arithmetic::div_mod::{lemma_fundamental_div_mod, lemma_fundamental_div_mod_converse};

verus! {

/// Base of one 64-bit limb.
pub open spec fn limb() -> int {
    0x1_0000_0000_0000_0000
}

/// The limb base squared.
pub open spec fn limb2() -> int {
    limb() * limb()
}

/// The limb base cubed.
pub open spec fn limb3() -> int {
    limb2() * limb()
}

/// 2^256, one past the largest representable value.
pub open spec fn limb4() -> int {
    limb3() * limb()
}

/// A 256-bit unsigned integer held as four 64-bit limbs, least significant first.
#[derive(Clone, Copy, Debug, PartialEq, Eq, Structural)]
pub struct Uint256 {
    pub l0: u64,
    pub l1: u64,
    pub l2: u64,
    pub l3: u64,
}

impl Uint256 {
    /// The mathematical value of this 256-bit integer.
    pub open spec fn val(self) -> int {
        self.l0 + self.l1 * limb() + self.l2 * limb2() + self.l3 * limb3()
    }

    pub open spec fn spec_from_u64(v: u64) -> Uint256 {
        Uint256 { l0: v, l1: 0, l2: 0, l3: 0 }
    }

    #[verifier::when_used_as_spec(spec_from_u64)]
    pub fn from_u64(v: u64) -> (r: Uint256)
        ensures
            r.val() == v,
            r == Uint256::spec_from_u64(v),
    {
        Uint256 { l0: v, l1: 0, l2: 0, l3: 0 }
    }

    pub fn zero() -> (r: Uint256)
        ensures
            r.val() == 0,
    {
        Uint256::from_u64(0)
    }

    proof fn lemma_val_bounds(self)
        ensures
            0 <= self.val() < limb4(),
    {
        assert(self.l0 + self.l1 * limb() + self.l2 * limb2() + self.l3 * limb3() < limb4()
            && self.l0 + self.l1 * limb() + self.l2 * limb2() + self.l3 * limb3() >= 0)
        by (nonlinear_arith)
            requires
                    limb2() == limb() * limb(),
                    limb3() == limb2() * limb(),
                    limb4() == limb3() * limb(),
                0 <= self.l0 < limb(),
                0 <= self.l1 < limb(),
                0 <= self.l2 < limb(),
                0 <= self.l3 < limb(),
    ;
    }

    /// Equality of values coincides with equality of limbs.
    pub proof fn lemma_eq_by_val(a: Uint256, b: Uint256)
        requires
            a.val() == b.val(),
        ensures
            a == b,
    {
        assert(a.l0 == b.l0 && a.l1 == b.l1 && a.l2 == b.l2 && a.l3 == b.l3)
        by (nonlinear_arith)
            requires
                    limb2() == limb() * limb(),
                    limb3() == limb2() * limb(),
                    limb4() == limb3() * limb(),
                a.l0 + a.l1 * limb() + a.l2 * limb2() + a.l3 * limb3()
                    == b.l0 + b.l1 * limb() + b.l2 * limb2() + b.l3 * limb3(),
                0 <= a.l0 < limb(),
                0 <= a.l1 < limb(),
                0 <= a.l2 < limb(),
                0 <= a.l3 < limb(),
                0 <= b.l0 < limb(),
                0 <= b.l1 < limb(),
                0 <= b.l2 < limb(),
                0 <= b.l3 < limb(),
    ;
    }

    pub fn eq_val(&self, other: &Uint256) -> (r: bool)
        ensures
            r == (self.val() == other.val()),
    {
        proof {
            if self.l0 == other.l0 && self.l1 == other.l1 && self.l2 == other.l2
                && self.l3 == other.l3 {
            } else {
                if self.val() == other.val() {
                    Uint256::lemma_eq_by_val(*self, *other);
                }
            }
        }
        self.l0 == other.l0 && self.l1 == other.l1 && self.l2 == other.l2 && self.l3 == other.l3
    }

    pub fn lt_val(&self, other: &Uint256) -> (r: bool)
        ensures
            r == (self.val() < other.val()),
    {
        proof {
            lemma_limb_order(*self, *other);
        }
        if self.l3 != other.l3 {
            self.l3 < other.l3
        } else if self.l2 != other.l2 {
            self.l2 < other.l2
        } else if self.l1 != other.l1 {
            self.l1 < other.l1
        } else {
            self.l0 < other.l0
        }
    }

    pub fn le_val(&self, other: &Uint256) -> (r: bool)
        ensures
            r == (self.val() <= other.val()),
    {
        !other.lt_val(self)
    }

    /// The larger of the two values.
    pub fn max_val(a: Uint256, b: Uint256) -> (r: Uint256)
        ensures
            r.val() == if a.val() >= b.val() { a.val() } else { b.val() },
    {
        if a.lt_val(&b) {
            b
        } else {
            a
        }
    }

    /// Wide addition: the 256-bit part of the sum and a carry flag.
    pub fn add_wide(&self, other: &Uint256) -> (rc: (Uint256, u64))
        ensures
            rc.0.val() + rc.1 * limb4() == self.val() + other.val(),
            rc.1 <= 1,
    {
        let s0: u128 = self.l0 as u128 + other.l0 as u128;
        let r0: u64 = s0 as u64;
        let c1: u128 = s0 >> 64;
        proof {
            lemma_split128(s0);
            lemma_carry_le_one(s0);
        }
        let s1: u128 = self.l1 as u128 + other.l1 as u128 + c1;
        let r1: u64 = s1 as u64;
        let c2: u128 = s1 >> 64;
        proof {
            lemma_split128(s1);
            lemma_carry_le_one(s1);
        }
        let s2: u128 = self.l2 as u128 + other.l2 as u128 + c2;
        let r2: u64 = s2 as u64;
        let c3: u128 = s2 >> 64;
        proof {
            lemma_split128(s2);
            lemma_carry_le_one(s2);
        }
        let s3: u128 = self.l3 as u128 + other.l3 as u128 + c3;
        let r3: u64 = s3 as u64;
        let c4: u128 = s3 >> 64;
        proof {
            lemma_split128(s3);
            lemma_carry_le_one(s3);
            let r = Uint256 { l0: r0, l1: r1, l2: r2, l3: r3 };
            assert(r.val() + c4 * limb4() == self.val() + other.val()) by (nonlinear_arith)
                requires
                    limb2() == limb() * limb(),
                    limb3() == limb2() * limb(),
                    limb4() == limb3() * limb(),
                    s0 == self.l0 + other.l0,
                    s1 == self.l1 + other.l1 + c1,
                    s2 == self.l2 + other.l2 + c2,
                    s3 == self.l3 + other.l3 + c3,
                    s0 == c1 * limb() + r0,
                    s1 == c2 * limb() + r1,
                    s2 == c3 * limb() + r2,
                    s3 == c4 * limb() + r3,
                    r.val() == r0 + r1 * limb() + r2 * limb2() + r3 * limb3(),
                    self.val() == self.l0 + self.l1 * limb() + self.l2 * limb2() + self.l3 * limb3(),
                    other.val() == other.l0 + other.l1 * limb() + other.l2 * limb2()
                        + other.l3 * limb3(),
            ;
        }
        (Uint256 { l0: r0, l1: r1, l2: r2, l3: r3 }, c4 as u64)
    }

    /// Wide multiplication by a 64-bit factor: the 256-bit part of the
    /// product and the overflowing high limb.
    pub fn mul_u64_wide(&self, m: u64) -> (rc: (Uint256, u64))
        ensures
            rc.0.val() + rc.1 * limb4() == self.val() * m,
    {
        proof {
            lemma_mul_limb_bound(self.l0, m);
            lemma_mul_limb_bound(self.l1, m);
            lemma_mul_limb_bound(self.l2, m);
            lemma_mul_limb_bound(self.l3, m);
        }
        let t0: u128 = self.l0 as u128 * m as u128;
        let r0: u64 = t0 as u64;
        proof {
            lemma_split128(t0);
        }
        let t1: u128 = self.l1 as u128 * m as u128 + (t0 >> 64);
        let r1: u64 = t1 as u64;
        proof {
            lemma_split128(t1);
        }
        let t2: u128 = self.l2 as u128 * m as u128 + (t1 >> 64);
        let r2: u64 = t2 as u64;
        proof {
            lemma_split128(t2);
        }
        let t3: u128 = self.l3 as u128 * m as u128 + (t2 >> 64);
        let r3: u64 = t3 as u64;
        let c4: u128 = t3 >> 64;
        proof {
            lemma_split128(t3);
            let r = Uint256 { l0: r0, l1: r1, l2: r2, l3: r3 };
            assert(r.val() + c4 * limb4() == self.val() * m) by (nonlinear_arith)
                requires
                    limb2() == limb() * limb(),
                    limb3() == limb2() * limb(),
                    limb4() == limb3() * limb(),
                    t0 == self.l0 * m,
                    t1 == self.l1 * m + (t0 >> 64),
                    t2 == self.l2 * m + (t1 >> 64),
                    t3 == self.l3 * m + (t2 >> 64),
                    t0 == (t0 >> 64) * limb() + r0,
                    t1 == (t1 >> 64) * limb() + r1,
                    t2 == (t2 >> 64) * limb() + r2,
                    t3 == (t3 >> 64) * limb() + r3,
                    c4 == t3 >> 64,
                    r.val() == r0 + r1 * limb() + r2 * limb2() + r3 * limb3(),
                    self.val() == self.l0 + self.l1 * limb() + self.l2 * limb2() + self.l3 * limb3(),
            ;
        }
        (Uint256 { l0: r0, l1: r1, l2: r2, l3: r3 }, c4 as u64)
    }

    /// Checked addition: the sum of the two values, when it fits in 256 bits.
    pub fn checked_add(&self, other: &Uint256) -> (r: Uint256)
        requires
            self.val() + other.val() < limb4(),
        ensures
            r.val() == self.val() + other.val(),
    {
        let s0: u128 = self.l0 as u128 + other.l0 as u128;
        let r0: u64 = s0 as u64;
        let c1: u128 = s0 >> 64;
        proof {
            lemma_split128(s0);
            lemma_carry_le_one(s0);
        }
        let s1: u128 = self.l1 as u128 + other.l1 as u128 + c1;
        let r1: u64 = s1 as u64;
        let c2: u128 = s1 >> 64;
        proof {
            lemma_split128(s1);
            lemma_carry_le_one(s1);
        }
        let s2: u128 = self.l2 as u128 + other.l2 as u128 + c2;
        let r2: u64 = s2 as u64;
        let c3: u128 = s2 >> 64;
        proof {
            lemma_split128(s2);
            lemma_carry_le_one(s2);
        }
        let s3: u128 = self.l3 as u128 + other.l3 as u128 + c3;
        let r3: u64 = s3 as u64;
        let c4: u128 = s3 >> 64;
        proof {
            lemma_split128(s3);
            let r = Uint256 { l0: r0, l1: r1, l2: r2, l3: r3 };
            assert(r.val() + c4 * limb4() == self.val() + other.val()) by (nonlinear_arith)
                requires
                    limb2() == limb() * limb(),
                    limb3() == limb2() * limb(),
                    limb4() == limb3() * limb(),
                    s0 == self.l0 + other.l0,
                    s1 == self.l1 + other.l1 + c1,
                    s2 == self.l2 + other.l2 + c2,
                    s3 == self.l3 + other.l3 + c3,
                    s0 == c1 * limb() + r0,
                    s1 == c2 * limb() + r1,
                    s2 == c3 * limb() + r2,
                    s3 == c4 * limb() + r3,
                    r.val() == r0 + r1 * limb() + r2 * limb2() + r3 * limb3(),
                    self.val() == self.l0 + self.l1 * limb() + self.l2 * limb2() + self.l3 * limb3(),
                    other.val() == other.l0 + other.l1 * limb() + other.l2 * limb2()
                        + other.l3 * limb3(),
    ;
            r.lemma_val_bounds();
            lemma_limb4_pos();
            assert((c4 == 0 ==> c4 * limb4() == 0) && (c4 >= 1 ==> c4 * limb4() >= limb4()))
            by (nonlinear_arith)
                requires
                    limb4() > 0,
            ;
            assert(r.val() == self.val() + other.val());
        }
        Uint256 { l0: r0, l1: r1, l2: r2, l3: r3 }
    }

    /// Checked subtraction: the difference, defined when no borrow remains.
    pub fn checked_sub(&self, other: &Uint256) -> (r: Uint256)
        requires
            other.val() <= self.val(),
        ensures
            r.val() == self.val() - other.val(),
    {
        let t0: u128 = 0x1_0000_0000_0000_0000u128 + self.l0 as u128 - other.l0 as u128;
        let r0: u64 = t0 as u64;
        proof {
            lemma_split128(t0);
            lemma_carry_le_one(t0);
        }
        let b1: u128 = 1 - (t0 >> 64);
        let t1: u128 = 0x1_0000_0000_0000_0000u128 + self.l1 as u128 - other.l1 as u128 - b1;
        let r1: u64 = t1 as u64;
        proof {
            lemma_split128(t1);
            lemma_carry_le_one(t1);
        }
        let b2: u128 = 1 - (t1 >> 64);
        let t2: u128 = 0x1_0000_0000_0000_0000u128 + self.l2 as u128 - other.l2 as u128 - b2;
        let r2: u64 = t2 as u64;
        proof {
            lemma_split128(t2);
            lemma_carry_le_one(t2);
        }
        let b3: u128 = 1 - (t2 >> 64);
        let t3: u128 = 0x1_0000_0000_0000_0000u128 + self.l3 as u128 - other.l3 as u128 - b3;
        let r3: u64 = t3 as u64;
        proof {
            lemma_split128(t3);
            lemma_carry_le_one(t3);
        }
        let b4: u128 = 1 - (t3 >> 64);
        proof {
            let r = Uint256 { l0: r0, l1: r1, l2: r2, l3: r3 };
            assert(r.val() == self.val() - other.val() + b4 * limb4()) by (nonlinear_arith)
                requires
                    limb2() == limb() * limb(),
                    limb3() == limb2() * limb(),
                    limb4() == limb3() * limb(),
                    t0 == limb() + self.l0 - other.l0,
                    t1 == limb() + self.l1 - other.l1 - b1,
                    t2 == limb() + self.l2 - other.l2 - b2,
                    t3 == limb() + self.l3 - other.l3 - b3,
                    t0 == (t0 >> 64) * limb() + r0,
                    t1 == (t1 >> 64) * limb() + r1,
                    t2 == (t2 >> 64) * limb() + r2,
                    t3 == (t3 >> 64) * limb() + r3,
                    b1 == 1 - (t0 >> 64),
                    b2 == 1 - (t1 >> 64),
                    b3 == 1 - (t2 >> 64),
                    b4 == 1 - (t3 >> 64),
                    r.val() == r0 + r1 * limb() + r2 * limb2() + r3 * limb3(),
                    self.val() == self.l0 + self.l1 * limb() + self.l2 * limb2() + self.l3 * limb3(),
                    other.val() == other.l0 + other.l1 * limb() + other.l2 * limb2()
                        + other.l3 * limb3(),
    ;
            r.lemma_val_bounds();
            self.lemma_val_bounds();
            other.lemma_val_bounds();
            lemma_limb4_pos();
            assert((b4 == 0 ==> b4 * limb4() == 0) && (b4 >= 1 ==> b4 * limb4() >= limb4()))
            by (nonlinear_arith)
                requires
                    limb4() > 0,
            ;
            assert(r.val() == self.val() - other.val());
        }
        Uint256 { l0: r0, l1: r1, l2: r2, l3: r3 }
    }

    /// Checked multiplication by a 64-bit factor.
    pub fn mul_u64(&self, m: u64) -> (r: Uint256)
        requires
            self.val() * m < limb4(),
        ensures
            r.val() == self.val() * m,
    {
        proof {
            lemma_mul_limb_bound(self.l0, m);
            lemma_mul_limb_bound(self.l1, m);
            lemma_mul_limb_bound(self.l2, m);
            lemma_mul_limb_bound(self.l3, m);
        }
        let t0: u128 = self.l0 as u128 * m as u128;
        let r0: u64 = t0 as u64;
        proof {
            lemma_split128(t0);
        }
        let t1: u128 = self.l1 as u128 * m as u128 + (t0 >> 64);
        let r1: u64 = t1 as u64;
        proof {
            lemma_split128(t1);
        }
        let t2: u128 = self.l2 as u128 * m as u128 + (t1 >> 64);
        let r2: u64 = t2 as u64;
        proof {
            lemma_split128(t2);
        }
        let t3: u128 = self.l3 as u128 * m as u128 + (t2 >> 64);
        let r3: u64 = t3 as u64;
        let c4: u128 = t3 >> 64;
        proof {
            lemma_split128(t3);
            assert(self.l0 as u128 * m as u128 == self.l0 * m) by (nonlinear_arith);
            assert(self.l1 as u128 * m as u128 <= (limb() - 1) * (limb() - 1)) by (nonlinear_arith)
                requires self.l1 < limb(), m < limb(), limb() == 0x1_0000_0000_0000_0000,
    ;
            assert(self.l2 as u128 * m as u128 <= (limb() - 1) * (limb() - 1)) by (nonlinear_arith)
                requires self.l2 < limb(), m < limb(), limb() == 0x1_0000_0000_0000_0000,
    ;
            assert(self.l3 as u128 * m as u128 <= (limb() - 1) * (limb() - 1)) by (nonlinear_arith)
                requires self.l3 < limb(), m < limb(), limb() == 0x1_0000_0000_0000_0000,
    ;
            assert(self.l0 as u128 * m as u128 <= (limb() - 1) * (limb() - 1)) by (nonlinear_arith)
                requires self.l0 < limb(), m < limb(), limb() == 0x1_0000_0000_0000_0000,
    ;
            lemma_split128(t0);
            lemma_split128(t1);
            lemma_split128(t2);
            lemma_split128(t3);
            let r = Uint256 { l0: r0, l1: r1, l2: r2, l3: r3 };
            assert(r.val() + c4 * limb4() == self.val() * m) by (nonlinear_arith)
                requires
                    limb2() == limb() * limb(),
                    limb3() == limb2() * limb(),
                    limb4() == limb3() * limb(),
                    t0 == self.l0 * m,
                    t1 == self.l1 * m + (t0 >> 64),
                    t2 == self.l2 * m + (t1 >> 64),
                    t3 == self.l3 * m + (t2 >> 64),
                    t0 == (t0 >> 64) * limb() + r0,
                    t1 == (t1 >> 64) * limb() + r1,
                    t2 == (t2 >> 64) * limb() + r2,
                    t3 == (t3 >> 64) * limb() + r3,
                    c4 == t3 >> 64,
                    r.val() == r0 + r1 * limb() + r2 * limb2() + r3 * limb3(),
                    self.val() == self.l0 + self.l1 * limb() + self.l2 * limb2() + self.l3 * limb3(),
    ;
            r.lemma_val_bounds();
            lemma_limb4_pos();
            assert((c4 == 0 ==> c4 * limb4() == 0) && (c4 >= 1 ==> c4 * limb4() >= limb4()))
            by (nonlinear_arith)
                requires
                    limb4() > 0,
            ;
            assert(r.val() == self.val() * m);
        }
        Uint256 { l0: r0, l1: r1, l2: r2, l3: r3 }
    }

    /// Long division of `hi * 2^256 + self` by a 64-bit divisor; `hi < d`
    /// keeps the quotient inside 256 bits. Returns quotient and remainder.
    pub fn div_rem_wide(&self, hi: u64, d: u64) -> (qr: (Uint256, u64))
        requires
            0 < d,
            hi < d,
        ensures
            qr.0.val() == (hi * limb4() + self.val()) / (d as int),
            qr.1 == (hi * limb4() + self.val()) % (d as int),
    {
        let c3: u128 = (hi as u128) << 64 | self.l3 as u128;
        let q3: u64 = (c3 / d as u128) as u64;
        let s3: u64 = (c3 % d as u128) as u64;
        let c2: u128 = (s3 as u128) << 64 | self.l2 as u128;
        let q2: u64 = (c2 / d as u128) as u64;
        let s2: u64 = (c2 % d as u128) as u64;
        let c1: u128 = (s2 as u128) << 64 | self.l1 as u128;
        let q1: u64 = (c1 / d as u128) as u64;
        let s1: u64 = (c1 % d as u128) as u64;
        let c0: u128 = (s1 as u128) << 64 | self.l0 as u128;
        let q0: u64 = (c0 / d as u128) as u64;
        let s0: u64 = (c0 % d as u128) as u64;
        proof {
            lemma_div_step(hi, self.l3, d, c3);
            lemma_div_step(s3, self.l2, d, c2);
            lemma_div_step(s2, self.l1, d, c1);
            lemma_div_step(s1, self.l0, d, c0);
            let q = Uint256 { l0: q0, l1: q1, l2: q2, l3: q3 };
            assert(hi * limb4() + self.val() == q.val() * d + s0) by (nonlinear_arith)
                requires
                    limb2() == limb() * limb(),
                    limb3() == limb2() * limb(),
                    limb4() == limb3() * limb(),
                    hi * limb() + self.l3 == q3 * d + s3,
                    s3 * limb() + self.l2 == q2 * d + s2,
                    s2 * limb() + self.l1 == q1 * d + s1,
                    s1 * limb() + self.l0 == q0 * d + s0,
                    q.val() == q0 + q1 * limb() + q2 * limb2() + q3 * limb3(),
                    self.val() == self.l0 + self.l1 * limb() + self.l2 * limb2() + self.l3 * limb3(),
    ;
            q.lemma_val_bounds();
            lemma_fundamental_div_mod_converse(hi * limb4() + self.val(), d as int, q.val(),
                s0 as int);
        }
        (Uint256 { l0: q0, l1: q1, l2: q2, l3: q3 }, s0)
    }

    /// The quotient of this value by a nonzero 64-bit divisor.
    pub fn div_u64(&self, d: u64) -> (r: Uint256)
        requires
            0 < d,
        ensures
            r.val() == self.val() / (d as int),
    {
        let (q, _rem) = self.div_rem_wide(0, d);
        q
    }

    /// The bounds of every 256-bit value, for callers.
    pub proof fn lemma_val_bounds_pub(self)
        ensures
            0 <= self.val() < limb4(),
    {
        self.lemma_val_bounds();
    }

    /// Whether one more than this value still fits in 256 bits.
    pub fn val_fits_after_increment(&self) -> (r: bool)
        ensures
            r == (self.val() + 1 < limb4()),
    {
        let m: u64 = 0xffff_ffff_ffff_ffffu64;
        proof {
            self.lemma_val_bounds();
            assert(((self.l0 == m && self.l1 == m && self.l2 == m && self.l3 == m) == (self.l0
                + self.l1 * limb() + self.l2 * limb2() + self.l3 * limb3() == limb4() - 1)))
            by (nonlinear_arith)
                requires
                    limb2() == limb() * limb(),
                    limb3() == limb2() * limb(),
                    limb4() == limb3() * limb(),
                    m == limb() - 1,
                    0 <= self.l0 < limb(),
                    0 <= self.l1 < limb(),
                    0 <= self.l2 < limb(),
                    0 <= self.l3 < limb(),
            ;
        }
        !(self.l0 == m && self.l1 == m && self.l2 == m && self.l3 == m)
    }

    /// The value as a u64, defined when it fits in one limb.
    pub fn as_u64(&self) -> (r: u64)
        requires
            self.val() < limb(),
        ensures
            r == self.val(),
    {
        proof {
            assert(self.l1 == 0 && self.l2 == 0 && self.l3 == 0) by (nonlinear_arith)
                requires
                    limb2() == limb() * limb(),
                    limb3() == limb2() * limb(),
                    self.l0 + self.l1 * limb() + self.l2 * limb2() + self.l3 * limb3() < limb(),
                    0 <= self.l0 < limb(),
                    0 <= self.l1 < limb(),
                    0 <= self.l2 < limb(),
                    0 <= self.l3 < limb(),
            ;
        }
        self.l0
    }

    /// 2^e as a 256-bit value, for exponents below 256.
    pub fn pow2(e: u64) -> (r: Uint256)
        requires
            e < 256,
        ensures
            r.val() == vstd::arithmetic::power2::pow2(e as nat),
    {
        let idx: u64 = e / 64;
        let off: u64 = e % 64;
        let w: u64 = 1u64 << off;
        proof {
            lemma_pow2_u64(off);
            vstd::arithmetic::power2::lemma_pow2_adds((64 * (e / 64)) as nat, (e % 64) as nat);
            lemma_pow2_limbs();
            let p = vstd::arithmetic::power2::pow2((64 * (e / 64)) as nat) as int;
            assert(w * p == vstd::arithmetic::power2::pow2(e as nat)) by (nonlinear_arith)
                requires
                    w == vstd::arithmetic::power2::pow2((e % 64) as nat),
                    vstd::arithmetic::power2::pow2((64 * (e / 64) + e % 64) as nat)
                        == p * vstd::arithmetic::power2::pow2((e % 64) as nat),
                    64 * (e / 64) + e % 64 == e,
            ;
        }
        if idx == 0 {
            Uint256 { l0: w, l1: 0, l2: 0, l3: 0 }
        } else if idx == 1 {
            Uint256 { l0: 0, l1: w, l2: 0, l3: 0 }
        } else if idx == 2 {
            Uint256 { l0: 0, l1: 0, l2: w, l3: 0 }
        } else {
            proof {
                assert(e / 64 == 3) by (nonlinear_arith)
                    requires
                        e < 256,
                        e / 64 != 0,
                        e / 64 != 1,
                        e / 64 != 2,
                ;
            }
            Uint256 { l0: 0, l1: 0, l2: 0, l3: w }
        }
    }
}

/// 2^k for k < 64, as an exec shift agrees with the spec power.
proof fn lemma_pow2_u64(k: u64)
    requires
        k < 64,
    ensures
        (1u64 << k) == vstd::arithmetic::power2::pow2(k as nat),
{
    vstd::bits::lemma_u64_pow2_no_overflow(k as nat);
    vstd::bits::lemma_u64_shl_is_mul(1u64, k);
}

/// The limb weights are the corresponding powers of two.
proof fn lemma_pow2_limbs()
    ensures
        vstd::arithmetic::power2::pow2(64) == limb(),
        vstd::arithmetic::power2::pow2(128) == limb2(),
        vstd::arithmetic::power2::pow2(192) == limb3(),
        vstd::arithmetic::power2::pow2(256) == limb4(),
{
    vstd::arithmetic::power2::lemma2_to64();
    vstd::arithmetic::power2::lemma_pow2_adds(64, 64);
    vstd::arithmetic::power2::lemma_pow2_adds(128, 64);
    vstd::arithmetic::power2::lemma_pow2_adds(192, 64);
}

/// The full limb weight 2^256 is positive.
pub proof fn lemma_limb4_pos()
    ensures
        limb4() > 0,
{
    assert(limb() * limb() > 0 && limb() * limb() * limb() > 0) by (nonlinear_arith)
        requires
            limb() > 0,
    ;
    assert(limb2() * limb() * limb() > 0) by (nonlinear_arith)
        requires
            limb2() > 0,
            limb() > 0,
    ;
}

/// The product of two 64-bit values fits below 2^128 - 2^64, so a
/// 64-bit carry can still be added without overflowing a u128.
proof fn lemma_mul_limb_bound(x: u64, m: u64)
    ensures
        x as u128 * m as u128 <= (0x1_0000_0000_0000_0000u128 - 1) * (0x1_0000_0000_0000_0000u128 - 1),
{
    assert(x as u128 * m as u128
        <= (0x1_0000_0000_0000_0000u128 - 1) * (0x1_0000_0000_0000_0000u128 - 1))
    by (nonlinear_arith)
        requires
            x as u128 <= 0x1_0000_0000_0000_0000u128 - 1,
            m as u128 <= 0x1_0000_0000_0000_0000u128 - 1,
    ;
}

/// A sum of two limbs and a one-bit carry shifts down to at most one.
proof fn lemma_carry_le_one(x: u128)
    requires
        x < 0x2_0000_0000_0000_0000u128,
    ensures
        x >> 64 <= 1,
{
    assert(x < 0x2_0000_0000_0000_0000u128 ==> x >> 64 <= 1) by (bit_vector);
}

/// A u128 splits into its high and low 64-bit halves.
proof fn lemma_split128(x: u128)
    ensures
        x == (x >> 64) * limb() + (x as u64),
        x >> 64 < limb(),
{
    assert(x == (x >> 64) * 0x1_0000_0000_0000_0000u128 + (x as u64)
        && (x >> 64) < 0x1_0000_0000_0000_0000u128) by (bit_vector);
}

/// One step of limb-wise long division: dividing `hi * 2^64 + lo` by `d`
/// with `hi < d` yields a one-limb quotient and a remainder below `d`.
proof fn lemma_div_step(hi: u64, lo: u64, d: u64, c: u128)
    requires
        0 < d,
        hi < d,
        c == (hi as u128) << 64 | lo as u128,
    ensures
        c == hi * limb() + lo,
        c / (d as u128) < limb(),
        hi * limb() + lo == ((c / (d as u128)) as u64) * d + ((c % (d as u128)) as u64),
        ((c % (d as u128)) as u64) < d,
{
    assert(c == (hi as u128) * 0x1_0000_0000_0000_0000u128 + lo as u128) by (bit_vector)
        requires c == (hi as u128) << 64 | lo as u128,
    ;
    lemma_fundamental_div_mod(c as int, d as int);
    assert(c / (d as u128) == (c as int) / (d as int) && c % (d as u128) == (c as int) % (d as int));
    assert(c < (d as u128) * 0x1_0000_0000_0000_0000u128) by (nonlinear_arith)
        requires
                    limb2() == limb() * limb(),
                    limb3() == limb2() * limb(),
                    limb4() == limb3() * limb(),
            c == (hi as u128) * 0x1_0000_0000_0000_0000u128 + lo as u128,
            hi < d,
            lo < 0x1_0000_0000_0000_0000u128,
    ;
    assert(c / (d as u128) < 0x1_0000_0000_0000_0000u128) by (nonlinear_arith)
        requires
                    limb2() == limb() * limb(),
                    limb3() == limb2() * limb(),
                    limb4() == limb3() * limb(),
            0 < d,
            c < (d as u128) * 0x1_0000_0000_0000_0000u128,
            c / (d as u128) == (c as int) / (d as int),
            (c as int) == ((c as int) / (d as int)) * (d as int) + (c as int) % (d as int),
            0 <= (c as int) % (d as int) < d,
    ;
}

/// Limb-wise lexicographic comparison agrees with value order.
proof fn lemma_limb_order(a: Uint256, b: Uint256)
    ensures
        a.l3 != b.l3 ==> ((a.val() < b.val()) == (a.l3 < b.l3)),
        a.l3 == b.l3 && a.l2 != b.l2 ==> ((a.val() < b.val()) == (a.l2 < b.l2)),
        a.l3 == b.l3 && a.l2 == b.l2 && a.l1 != b.l1 ==> ((a.val() < b.val()) == (a.l1 < b.l1)),
        a.l3 == b.l3 && a.l2 == b.l2 && a.l1 == b.l1 ==> ((a.val() < b.val()) == (a.l0 < b.l0)),
{
    assert((a.l3 != b.l3 ==> ((a.l0 + a.l1 * limb() + a.l2 * limb2() + a.l3 * limb3()
            < b.l0 + b.l1 * limb() + b.l2 * limb2() + b.l3 * limb3()) == (a.l3 < b.l3)))
        && (a.l3 == b.l3 && a.l2 != b.l2 ==> ((a.l0 + a.l1 * limb() + a.l2 * limb2() + a.l3 * limb3()
            < b.l0 + b.l1 * limb() + b.l2 * limb2() + b.l3 * limb3()) == (a.l2 < b.l2)))
        && (a.l3 == b.l3 && a.l2 == b.l2 && a.l1 != b.l1 ==> ((a.l0 + a.l1 * limb() + a.l2 * limb2()
            + a.l3 * limb3() < b.l0 + b.l1 * limb() + b.l2 * limb2() + b.l3 * limb3()) == (a.l1 < b.l1)))
        && (a.l3 == b.l3 && a.l2 == b.l2 && a.l1 == b.l1 ==> ((a.l0 + a.l1 * limb() + a.l2 * limb2()
            + a.l3 * limb3() < b.l0 + b.l1 * limb() + b.l2 * limb2() + b.l3 * limb3()) == (a.l0 < b.l0))))
    by (nonlinear_arith)
        requires
                    limb2() == limb() * limb(),
                    limb3() == limb2() * limb(),
                    limb4() == limb3() * limb(),
            0 <= a.l0 < limb(),
            0 <= a.l1 < limb(),
            0 <= a.l2 < limb(),
            0 <= a.l3 < limb(),
            0 <= b.l0 < limb(),
            0 <= b.l1 < limb(),
            0 <= b.l2 < limb(),
            0 <= b.l3 < limb(),
    ;
}

} // verus!
