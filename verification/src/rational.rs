//! Exact rational arithmetic for quantities and money.
//!
//! Stock quantities and unit costs may be fractional, and the weighted-average
//! cost recomputation divides a running total by a running quantity.  To keep
//! those divisions exact, every amount in this crate is a rational number
//! `num / den` held in a [`Rat`].  The executable operations are checked: they
//! return `None` when a numerator or denominator leaves the `i64` range, and
//! the intermediate products are carried in `i128`, where they cannot
//! overflow.
//!
//! The mathematical value of a `Rat` is its [`Frac`]: the same pair as
//! unbounded integers.  All contracts compare values through [`frac_eq`]
//! (equality of cross products), never through the representation, so two
//! fractions that denote the same number are interchangeable.

use vstd::prelude::*;

verus! {

/// A mathematical fraction: `num / den` over unbounded integers.
pub struct Frac {
    pub num: int,
    pub den: int,
}

/// A fraction is well formed when its denominator is positive.
pub open spec fn frac_wf(a: Frac) -> bool {
    a.den > 0
}

/// Two fractions denote the same rational number: cross products agree.
pub open spec fn frac_eq(a: Frac, b: Frac) -> bool {
    a.num * b.den == b.num * a.den
}

pub open spec fn frac_add(a: Frac, b: Frac) -> Frac {
    Frac { num: a.num * b.den + b.num * a.den, den: a.den * b.den }
}

pub open spec fn frac_sub(a: Frac, b: Frac) -> Frac {
    Frac { num: a.num * b.den - b.num * a.den, den: a.den * b.den }
}

pub open spec fn frac_mul(a: Frac, b: Frac) -> Frac {
    Frac { num: a.num * b.num, den: a.den * b.den }
}

/// Division, with the sign moved into the numerator so that a well-formed
/// divisor with a nonzero numerator yields a well-formed result.
pub open spec fn frac_div(a: Frac, b: Frac) -> Frac {
    if b.num >= 0 {
        Frac { num: a.num * b.den, den: a.den * b.num }
    } else {
        Frac { num: -(a.num * b.den), den: -(a.den * b.num) }
    }
}

/// The value zero.
pub open spec fn frac_zero() -> Frac {
    Frac { num: 0, den: 1 }
}

/// A whole number as a fraction.
pub open spec fn frac_int(n: int) -> Frac {
    Frac { num: n, den: 1 }
}

/// Strictly positive value (for a well-formed fraction).
pub open spec fn frac_pos(a: Frac) -> bool {
    a.num > 0
}

/// Comparison of values (for well-formed fractions).
pub open spec fn frac_le(a: Frac, b: Frac) -> bool {
    a.num * b.den <= b.num * a.den
}

/// An exact rational amount: `num / den` with `den > 0`, both in `i64`.
#[derive(Clone, Copy, Debug, PartialEq, Eq, Structural)]
pub struct Rat {
    pub num: i64,
    pub den: i64,
}

impl Rat {
    /// The mathematical value of this amount.
    pub open spec fn frac(self) -> Frac {
        Frac { num: self.num as int, den: self.den as int }
    }

    /// Well-formed: positive denominator.
    pub open spec fn wf(self) -> bool {
        self.den > 0
    }

    /// The two amounts denote the same number.
    pub open spec fn same(self, other: Rat) -> bool {
        frac_eq(self.frac(), other.frac())
    }
}

pub open spec fn fits_i64(x: int) -> bool {
    -0x8000_0000_0000_0000 <= x <= 0x7fff_ffff_ffff_ffff
}

/// Pack a fraction back into a `Rat`, or `None` when it leaves `i64`.
pub open spec fn rat_make(f: Frac) -> Option<Rat> {
    if fits_i64(f.num) && fits_i64(f.den) {
        Some(Rat { num: f.num as i64, den: f.den as i64 })
    } else {
        None
    }
}

pub open spec fn rat_add(a: Rat, b: Rat) -> Option<Rat> {
    rat_make(frac_add(a.frac(), b.frac()))
}

pub open spec fn rat_sub(a: Rat, b: Rat) -> Option<Rat> {
    rat_make(frac_sub(a.frac(), b.frac()))
}

pub open spec fn rat_mul(a: Rat, b: Rat) -> Option<Rat> {
    rat_make(frac_mul(a.frac(), b.frac()))
}

pub open spec fn rat_div(a: Rat, b: Rat) -> Option<Rat> {
    if b.num == 0 {
        None
    } else {
        rat_make(frac_div(a.frac(), b.frac()))
    }
}

/// |x * y| is at most 2^126 - 2^63 when `x` is any `i64` and `y` a positive one.
proof fn lemma_mul_num_den(x: int, y: int)
    by (nonlinear_arith)
    requires
        -0x8000_0000_0000_0000 <= x <= 0x7fff_ffff_ffff_ffff,
        1 <= y <= 0x7fff_ffff_ffff_ffff,
    ensures
        -0x3fff_ffff_ffff_ffff_8000_0000_0000_0000 <= x * y
            <= 0x3fff_ffff_ffff_ffff_8000_0000_0000_0000,
        -0x3fff_ffff_ffff_ffff_8000_0000_0000_0000 <= y * x
            <= 0x3fff_ffff_ffff_ffff_8000_0000_0000_0000,
{
}

/// |x * y| is at most 2^126 for any two `i64` values.
proof fn lemma_mul_i64(x: int, y: int)
    by (nonlinear_arith)
    requires
        -0x8000_0000_0000_0000 <= x <= 0x7fff_ffff_ffff_ffff,
        -0x8000_0000_0000_0000 <= y <= 0x7fff_ffff_ffff_ffff,
    ensures
        -0x4000_0000_0000_0000_0000_0000_0000_0000 <= x * y
            <= 0x4000_0000_0000_0000_0000_0000_0000_0000,
{
}

/// The product of two positive `i64` denominators stays positive and bounded.
proof fn lemma_den_mul(x: int, y: int)
    by (nonlinear_arith)
    requires
        1 <= x <= 0x7fff_ffff_ffff_ffff,
        1 <= y <= 0x7fff_ffff_ffff_ffff,
    ensures
        1 <= x * y <= 0x3fff_ffff_ffff_ffff_8000_0000_0000_0000,
{
}

impl Rat {
    /// The amount zero.
    pub fn zero() -> (r: Rat)
        ensures
            r == (Rat { num: 0, den: 1 }),
    {
        Rat { num: 0, den: 1 }
    }

    /// A whole number as an amount.
    pub fn from_int(n: i64) -> (r: Rat)
        ensures
            r == (Rat { num: n, den: 1 }),
    {
        Rat { num: n, den: 1 }
    }

    /// An amount from a numerator and a nonzero denominator; the sign is
    /// moved into the numerator.
    pub fn new(num: i64, den: i64) -> (r: Option<Rat>)
        ensures
            den > 0 ==> r == Some(Rat { num, den }),
            den == 0 ==> r is None,
            r matches Some(v) ==> v.wf() && frac_eq(
                v.frac(),
                Frac { num: num as int, den: den as int },
            ),
    {
        if den > 0 {
            Some(Rat { num, den })
        } else if den == 0 || num == -0x8000_0000_0000_0000i64 || den == -0x8000_0000_0000_0000i64 {
            None
        } else {
            let r = Rat { num: -num, den: -den };
            proof {
                assert(frac_eq(r.frac(), Frac { num: num as int, den: den as int }))
                    by (nonlinear_arith)
                    requires
                        r.num == -(num as int) && r.den == -(den as int),
                ;
            }
            Some(r)
        }
    }

    /// Checked addition of values.
    pub fn add(self, other: Rat) -> (r: Option<Rat>)
        requires
            self.wf(),
            other.wf(),
        ensures
            r == rat_add(self, other),
            r matches Some(v) ==> v.wf() && v.frac() == frac_add(self.frac(), other.frac()),
    {
        proof {
            lemma_mul_num_den(self.num as int, other.den as int);
            lemma_mul_num_den(other.num as int, self.den as int);
            lemma_den_mul(self.den as int, other.den as int);
        }
        let p1: i128 = (self.num as i128) * (other.den as i128);
        let p2: i128 = (other.num as i128) * (self.den as i128);
        let n: i128 = p1 + p2;
        let d: i128 = (self.den as i128) * (other.den as i128);
        if n < -0x8000_0000_0000_0000i128 || n > 0x7fff_ffff_ffff_ffffi128
            || d > 0x7fff_ffff_ffff_ffffi128 {
            None
        } else {
            Some(Rat { num: n as i64, den: d as i64 })
        }
    }

    /// Checked subtraction of values.
    pub fn sub(self, other: Rat) -> (r: Option<Rat>)
        requires
            self.wf(),
            other.wf(),
        ensures
            r == rat_sub(self, other),
            r matches Some(v) ==> v.wf() && v.frac() == frac_sub(self.frac(), other.frac()),
    {
        proof {
            lemma_mul_num_den(self.num as int, other.den as int);
            lemma_mul_num_den(other.num as int, self.den as int);
            lemma_den_mul(self.den as int, other.den as int);
        }
        let p1: i128 = (self.num as i128) * (other.den as i128);
        let p2: i128 = (other.num as i128) * (self.den as i128);
        let n: i128 = p1 - p2;
        let d: i128 = (self.den as i128) * (other.den as i128);
        if n < -0x8000_0000_0000_0000i128 || n > 0x7fff_ffff_ffff_ffffi128
            || d > 0x7fff_ffff_ffff_ffffi128 {
            None
        } else {
            Some(Rat { num: n as i64, den: d as i64 })
        }
    }

    /// Checked multiplication of values.
    pub fn mul(self, other: Rat) -> (r: Option<Rat>)
        requires
            self.wf(),
            other.wf(),
        ensures
            r == rat_mul(self, other),
            r matches Some(v) ==> v.wf() && v.frac() == frac_mul(self.frac(), other.frac()),
    {
        proof {
            lemma_mul_i64(self.num as int, other.num as int);
            lemma_den_mul(self.den as int, other.den as int);
        }
        let n: i128 = (self.num as i128) * (other.num as i128);
        let d: i128 = (self.den as i128) * (other.den as i128);
        if n < -0x8000_0000_0000_0000i128 || n > 0x7fff_ffff_ffff_ffffi128
            || d > 0x7fff_ffff_ffff_ffffi128 {
            None
        } else {
            Some(Rat { num: n as i64, den: d as i64 })
        }
    }

    /// Checked division of values; `None` when the divisor is zero or the
    /// result leaves `i64`.
    pub fn div(self, other: Rat) -> (r: Option<Rat>)
        requires
            self.wf(),
            other.wf(),
        ensures
            r == rat_div(self, other),
            r matches Some(v) ==> v.wf() && v.frac() == frac_div(self.frac(), other.frac()),
    {
        if other.num == 0 {
            return None;
        }
        proof {
            lemma_mul_num_den(self.num as int, other.den as int);
            lemma_mul_num_den(other.num as int, self.den as int);
            if other.num > 0 {
                assert((self.den as int) * (other.num as int) >= 1) by (nonlinear_arith)
                    requires
                        other.num as int >= 1 && self.den as int >= 1,
                ;
            } else {
                assert((self.den as int) * (other.num as int) <= -1) by (nonlinear_arith)
                    requires
                        other.num as int <= -1 && self.den as int >= 1,
                ;
            }
        }
        let p: i128 = (self.num as i128) * (other.den as i128);
        let q: i128 = (self.den as i128) * (other.num as i128);
        let (n, d): (i128, i128) = if other.num > 0 {
            (p, q)
        } else {
            (-p, -q)
        };
        if n < -0x8000_0000_0000_0000i128 || n > 0x7fff_ffff_ffff_ffffi128
            || d > 0x7fff_ffff_ffff_ffffi128 {
            None
        } else {
            Some(Rat { num: n as i64, den: d as i64 })
        }
    }

    /// Value comparison: `self <= other`.
    pub fn le(self, other: Rat) -> (r: bool)
        requires
            self.wf(),
            other.wf(),
        ensures
            r == frac_le(self.frac(), other.frac()),
    {
        proof {
            lemma_mul_num_den(self.num as int, other.den as int);
            lemma_mul_num_den(other.num as int, self.den as int);
        }
        (self.num as i128) * (other.den as i128) <= (other.num as i128) * (self.den as i128)
    }

    /// Value equality, independent of representation.
    pub fn same_value(self, other: Rat) -> (r: bool)
        requires
            self.wf(),
            other.wf(),
        ensures
            r == self.same(other),
    {
        proof {
            lemma_mul_num_den(self.num as int, other.den as int);
            lemma_mul_num_den(other.num as int, self.den as int);
        }
        (self.num as i128) * (other.den as i128) == (other.num as i128) * (self.den as i128)
    }

    /// The value is strictly positive.
    pub fn is_pos(self) -> (r: bool)
        requires
            self.wf(),
        ensures
            r == frac_pos(self.frac()),
    {
        self.num > 0
    }

    /// The value is zero.
    pub fn is_zero(self) -> (r: bool)
        ensures
            r == (self.num == 0),
    {
        self.num == 0
    }
}

/// Value equality is transitive.
pub proof fn lemma_frac_eq_trans(a: Frac, b: Frac, c: Frac)
    requires
        frac_wf(a),
        frac_wf(b),
        frac_wf(c),
        frac_eq(a, b),
        frac_eq(b, c),
    ensures
        frac_eq(a, c),
{
    assert(a.num * c.den == c.num * a.den) by (nonlinear_arith)
        requires
            a.num * b.den == b.num * a.den,
            b.num * c.den == c.num * b.den,
            b.den > 0,
    ;
}

/// Value equality respects the sign of a well-formed fraction.
pub proof fn lemma_frac_eq_sign(a: Frac, b: Frac)
    requires
        frac_wf(a),
        frac_wf(b),
        frac_eq(a, b),
    ensures
        frac_pos(a) == frac_pos(b),
        (a.num == 0) == (b.num == 0),
        (a.num < 0) == (b.num < 0),
{
    assert(((a.num > 0) == (b.num > 0)) && ((a.num == 0) == (b.num == 0)) && ((a.num < 0) == (
    b.num < 0))) by (nonlinear_arith)
        requires
            a.num * b.den == b.num * a.den,
            a.den > 0,
            b.den > 0,
    ;
}

/// Addition respects value equality.
pub proof fn lemma_frac_add_cong(a: Frac, a2: Frac, b: Frac, b2: Frac)
    requires
        frac_wf(a),
        frac_wf(a2),
        frac_wf(b),
        frac_wf(b2),
        frac_eq(a, a2),
        frac_eq(b, b2),
    ensures
        frac_eq(frac_add(a, b), frac_add(a2, b2)),
{
    assert((a.num * b.den + b.num * a.den) * (a2.den * b2.den) == (a.num * b.den) * (a2.den
        * b2.den) + (b.num * a.den) * (a2.den * b2.den)) by (nonlinear_arith);
    assert((a.num * b.den) * (a2.den * b2.den) == (a.num * a2.den) * (b.den * b2.den))
        by (nonlinear_arith);
    assert((a2.num * a.den) * (b.den * b2.den) == (a2.num * b2.den) * (a.den * b.den))
        by (nonlinear_arith);
    assert((b.num * a.den) * (a2.den * b2.den) == (b.num * b2.den) * (a.den * a2.den))
        by (nonlinear_arith);
    assert((b2.num * b.den) * (a.den * a2.den) == (b2.num * a2.den) * (a.den * b.den))
        by (nonlinear_arith);
    assert((a2.num * b2.den + b2.num * a2.den) * (a.den * b.den) == (a2.num * b2.den) * (a.den
        * b.den) + (b2.num * a2.den) * (a.den * b.den)) by (nonlinear_arith);
}

/// Subtraction respects value equality.
pub proof fn lemma_frac_sub_cong(a: Frac, a2: Frac, b: Frac, b2: Frac)
    requires
        frac_wf(a),
        frac_wf(a2),
        frac_wf(b),
        frac_wf(b2),
        frac_eq(a, a2),
        frac_eq(b, b2),
    ensures
        frac_eq(frac_sub(a, b), frac_sub(a2, b2)),
{
    assert((a.num * b.den - b.num * a.den) * (a2.den * b2.den) == (a.num * b.den) * (a2.den
        * b2.den) - (b.num * a.den) * (a2.den * b2.den)) by (nonlinear_arith);
    assert((a.num * b.den) * (a2.den * b2.den) == (a.num * a2.den) * (b.den * b2.den))
        by (nonlinear_arith);
    assert((a2.num * a.den) * (b.den * b2.den) == (a2.num * b2.den) * (a.den * b.den))
        by (nonlinear_arith);
    assert((b.num * a.den) * (a2.den * b2.den) == (b.num * b2.den) * (a.den * a2.den))
        by (nonlinear_arith);
    assert((b2.num * b.den) * (a.den * a2.den) == (b2.num * a2.den) * (a.den * b.den))
        by (nonlinear_arith);
    assert((a2.num * b2.den - b2.num * a2.den) * (a.den * b.den) == (a2.num * b2.den) * (a.den
        * b.den) - (b2.num * a2.den) * (a.den * b.den)) by (nonlinear_arith);
}

/// Division respects value equality (for nonzero divisors).
pub proof fn lemma_frac_div_cong(a: Frac, a2: Frac, b: Frac, b2: Frac)
    requires
        frac_wf(a),
        frac_wf(a2),
        frac_wf(b),
        frac_wf(b2),
        frac_eq(a, a2),
        frac_eq(b, b2),
        b.num != 0,
    ensures
        frac_eq(frac_div(a, b), frac_div(a2, b2)),
{
    lemma_frac_eq_sign(b, b2);
    assert((a.num * b.den) * (a2.den * b2.num) == (a.num * a2.den) * (b2.num * b.den))
        by (nonlinear_arith);
    assert((a2.num * a.den) * (b.num * b2.den) == (a2.num * b2.den) * (a.den * b.num))
        by (nonlinear_arith);
    assert((a.num * a2.den) * (b2.num * b.den) == (a.num * a2.den) * (b.num * b2.den))
        by (nonlinear_arith)
        requires
            b.num * b2.den == b2.num * b.den,
    ;
    assert((a.num * b.den) * (a2.den * b2.num) == (a2.num * b2.den) * (a.den * b.num));
    if b.num > 0 {
    } else {
        assert((-(a.num * b.den)) * (-(a2.den * b2.num)) == (a.num * b.den) * (a2.den * b2.num))
            by (nonlinear_arith);
        assert((-(a2.num * b2.den)) * (-(a.den * b.num)) == (a2.num * b2.den) * (a.den * b.num))
            by (nonlinear_arith);
    }
}

/// Dividing a product by its nonzero factor gives back the other factor:
/// from `x * p == v` follows `p == v / x`.
pub proof fn lemma_frac_cancel(x: Frac, p: Frac, v: Frac)
    requires
        frac_wf(x),
        frac_wf(p),
        frac_wf(v),
        x.num != 0,
        frac_eq(frac_mul(x, p), v),
    ensures
        frac_eq(p, frac_div(v, x)),
{
    assert(p.num * (v.den * x.num) == (x.num * p.num) * v.den) by (nonlinear_arith);
    assert(v.num * (x.den * p.den) == (v.num * x.den) * p.den) by (nonlinear_arith);
    assert(p.num * (v.den * x.num) == (v.num * x.den) * p.den);
    if x.num > 0 {
    } else {
        assert(p.num * (-(v.den * x.num)) == -(p.num * (v.den * x.num))) by (nonlinear_arith);
        assert((-(v.num * x.den)) * p.den == -((v.num * x.den) * p.den)) by (nonlinear_arith);
    }
}


/// The checked operations keep denominators positive.
pub proof fn lemma_frac_ops_wf(a: Frac, b: Frac)
    requires
        frac_wf(a),
        frac_wf(b),
    ensures
        frac_wf(frac_add(a, b)),
        frac_wf(frac_sub(a, b)),
        frac_wf(frac_mul(a, b)),
        b.num != 0 ==> frac_wf(frac_div(a, b)),
{
    assert(a.den * b.den > 0) by (nonlinear_arith)
        requires
            a.den > 0 && b.den > 0,
    ;
    if b.num > 0 {
        assert(a.den * b.num > 0) by (nonlinear_arith)
            requires
                a.den > 0 && b.num > 0,
        ;
    }
    if b.num < 0 {
        assert(-(a.den * b.num) > 0) by (nonlinear_arith)
            requires
                a.den > 0 && b.num < 0,
        ;
    }
}

/// Adding something nonnegative to something positive stays positive.
pub proof fn lemma_frac_add_pos(a: Frac, b: Frac)
    requires
        frac_wf(a),
        frac_wf(b),
        frac_pos(a),
        b.num >= 0,
    ensures
        frac_pos(frac_add(a, b)),
{
    assert(a.num * b.den + b.num * a.den > 0) by (nonlinear_arith)
        requires
            a.num > 0 && b.num >= 0 && a.den > 0 && b.den > 0,
    ;
}

/// Adding and then subtracting the same value gives the value back.
pub proof fn lemma_frac_add_sub(a: Frac, b: Frac)
    requires
        frac_wf(a),
        frac_wf(b),
    ensures
        frac_eq(frac_sub(frac_add(a, b), b), a),
{
    assert(((a.num * b.den + b.num * a.den) * b.den - b.num * (a.den * b.den)) * a.den == a.num
        * ((a.den * b.den) * b.den)) by (nonlinear_arith);
}

/// Multiplying a quotient by its nonzero divisor gives back the dividend.
pub proof fn lemma_frac_mul_div(v: Frac, x: Frac)
    requires
        frac_wf(v),
        frac_wf(x),
        x.num != 0,
    ensures
        frac_eq(frac_mul(x, frac_div(v, x)), v),
{
    if x.num > 0 {
        assert((x.num * (v.num * x.den)) * v.den == v.num * (x.den * (v.den * x.num)))
            by (nonlinear_arith);
    } else {
        assert((x.num * (-(v.num * x.den))) * v.den == v.num * (x.den * (-(v.den * x.num))))
            by (nonlinear_arith);
    }
}

/// A zero-valued factor makes the product zero-valued.
pub proof fn lemma_frac_mul_zero(a: Frac, b: Frac)
    requires
        frac_wf(a),
        frac_wf(b),
        a.num == 0,
    ensures
        frac_eq(frac_mul(a, b), frac_zero()),
{
    assert(a.num * b.num == 0) by (nonlinear_arith)
        requires
            a.num == 0,
    ;
}

/// Adding a zero-valued term does not change the value.
pub proof fn lemma_frac_add_zero_val(a: Frac, e: Frac)
    requires
        frac_wf(a),
        frac_wf(e),
        e.num == 0,
    ensures
        frac_eq(frac_add(a, e), a),
{
    assert((a.num * e.den + e.num * a.den) * a.den == a.num * (a.den * e.den)) by (nonlinear_arith)
        requires
            e.num == 0,
    ;
}


/// Ordering of values is transitive.
pub proof fn lemma_frac_le_trans(a: Frac, b: Frac, c: Frac)
    requires
        frac_wf(a),
        frac_wf(b),
        frac_wf(c),
        frac_le(a, b),
        frac_le(b, c),
    ensures
        frac_le(a, c),
{
    assert((a.num * b.den) * c.den <= (b.num * a.den) * c.den) by (nonlinear_arith)
        requires
            a.num * b.den <= b.num * a.den && c.den > 0,
    ;
    assert((b.num * c.den) * a.den <= (c.num * b.den) * a.den) by (nonlinear_arith)
        requires
            b.num * c.den <= c.num * b.den && a.den > 0,
    ;
    assert((a.num * b.den) * c.den == (a.num * c.den) * b.den) by (nonlinear_arith);
    assert((b.num * a.den) * c.den == (b.num * c.den) * a.den) by (nonlinear_arith);
    assert((c.num * b.den) * a.den == (c.num * a.den) * b.den) by (nonlinear_arith);
    assert(a.num * c.den <= c.num * a.den) by (nonlinear_arith)
        requires
            (a.num * c.den) * b.den <= (c.num * a.den) * b.den && b.den > 0,
    ;
}


/// Subtracting twice is subtracting the sum.
pub proof fn lemma_frac_sub_sub(x: Frac, a: Frac, b: Frac)
    requires
        frac_wf(x),
        frac_wf(a),
        frac_wf(b),
    ensures
        frac_eq(frac_sub(frac_sub(x, a), b), frac_sub(x, frac_add(a, b))),
{
    assert((x.num * a.den - a.num * x.den) * b.den == x.num * a.den * b.den - a.num * x.den
        * b.den) by (nonlinear_arith);
    assert(x.num * (a.den * b.den) == x.num * a.den * b.den) by (nonlinear_arith);
    assert((a.num * b.den + b.num * a.den) * x.den == a.num * b.den * x.den + b.num * a.den
        * x.den) by (nonlinear_arith);
    assert(a.num * x.den * b.den == a.num * b.den * x.den) by (nonlinear_arith);
    assert(b.num * (x.den * a.den) == b.num * a.den * x.den) by (nonlinear_arith);
    assert((x.den * a.den) * b.den == x.den * (a.den * b.den)) by (nonlinear_arith);
}

/// Subtracting a zero-valued term does not change the value.
pub proof fn lemma_frac_sub_zero_val(a: Frac, e: Frac)
    requires
        frac_wf(a),
        frac_wf(e),
        e.num == 0,
    ensures
        frac_eq(a, frac_sub(a, e)),
{
    assert(a.num * (a.den * e.den) == (a.num * e.den - e.num * a.den) * a.den) by (nonlinear_arith)
        requires
            e.num == 0,
    ;
}

} // verus!
