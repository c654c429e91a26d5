//! The mathematical model of a decimal amount: an integer mantissa and the
//! number of fractional digits, standing for `mantissa / 10^scale`.

use vstd::arithmetic::div_mod::{lemma_fundamental_div_mod, lemma_mod_multiples_basic};
use vstd::prelude::*;

verus! {

/// The largest magnitude a mantissa can have: `2^96 - 1`.
pub const MAX_MANTISSA: i128 = 79_228_162_514_264_337_593_543_950_335;

/// The largest number of fractional digits an amount can carry.
pub const MAX_SCALE: u32 = 28;

/// Ten to the power `e`.
pub open spec fn pow10(e: nat) -> nat
    decreases e,
{
    if e == 0 {
        1
    } else {
        10 * pow10((e - 1) as nat)
    }
}

/// The remainder of the division that rounds towards zero: it has the sign
/// of `x`, whatever the sign of `y`.
pub open spec fn truncated_rem(x: int, y: int) -> int {
    let d = if y < 0 { -y } else { y };
    if x >= 0 {
        x % d
    } else {
        -((-x) % d)
    }
}

/// A decimal number `mantissa / 10^scale`. Two values with different scales
/// can stand for the same number: `1.0` and `1.00` differ in scale only.
pub struct DecimalValue {
    pub mantissa: int,
    pub scale: nat,
}

impl DecimalValue {
    /// The value fits the decimal representation: at most `MAX_SCALE`
    /// fractional digits and a mantissa of at most 96 bits.
    pub open spec fn representable(self) -> bool {
        &&& self.scale <= MAX_SCALE
        &&& -MAX_MANTISSA <= self.mantissa <= MAX_MANTISSA
    }

    /// Both stand for the same number.
    pub open spec fn same_value(self, other: DecimalValue) -> bool {
        self.mantissa * pow10(other.scale) == other.mantissa * pow10(self.scale)
    }

    /// The number is an integer multiple of `10^-unit_scale`: written with
    /// `unit_scale` fractional digits, nothing of it is lost.
    pub open spec fn is_multiple_of_unit(self, unit_scale: nat) -> bool {
        self.scale <= unit_scale || self.mantissa % (pow10((self.scale - unit_scale) as nat) as int)
            == 0
    }

    /// No trailing fractional zero is left to remove, and zero has scale 0.
    pub open spec fn is_stripped(self) -> bool {
        self.scale == 0 || self.mantissa % 10 != 0
    }

    /// The same number with every trailing fractional zero removed.
    pub open spec fn canonical(self) -> DecimalValue
        decreases self.scale,
    {
        if self.mantissa == 0 {
            DecimalValue { mantissa: 0, scale: 0 }
        } else if self.scale > 0 && self.mantissa % 10 == 0 {
            (DecimalValue { mantissa: self.mantissa / 10, scale: (self.scale - 1) as nat }).canonical()
        } else {
            self
        }
    }

    /// The same number with at least `min_scale` fractional digits: zeros
    /// are appended where there are fewer.
    pub open spec fn padded(self, min_scale: nat) -> DecimalValue {
        if self.scale < min_scale {
            DecimalValue {
                mantissa: self.mantissa * pow10((min_scale - self.scale) as nat),
                scale: min_scale,
            }
        } else {
            self
        }
    }

    /// The normal form of the number for a minimum scale: trailing zeros
    /// removed, then padded back up to `min_scale` digits.
    pub open spec fn normalized(self, min_scale: nat) -> DecimalValue {
        self.canonical().padded(min_scale)
    }

    /// The number is in normal form for `min_scale` already.
    pub open spec fn is_normal(self, min_scale: nat) -> bool {
        &&& self.scale >= min_scale
        &&& self.scale == min_scale || self.mantissa % 10 != 0
    }

    /// The number with its sign flipped.
    pub open spec fn negated(self) -> DecimalValue {
        DecimalValue { mantissa: -self.mantissa, scale: self.scale }
    }

    /// The number without its sign.
    pub open spec fn magnitude(self) -> DecimalValue {
        DecimalValue {
            mantissa: if self.mantissa < 0 { -self.mantissa } else { self.mantissa },
            scale: self.scale,
        }
    }

    /// `r` is the remainder of `self` divided by `divisor`, the quotient
    /// rounded towards zero. Both are first written with the larger of
    /// their two scales, so that the remainder of their mantissas is the
    /// remainder of the numbers.
    pub open spec fn has_remainder(self, divisor: DecimalValue, r: DecimalValue) -> bool {
        let s = if self.scale >= divisor.scale { self.scale } else { divisor.scale };
        let x = self.mantissa * pow10((s - self.scale) as nat);
        let y = divisor.mantissa * pow10((s - divisor.scale) as nat);
        r.mantissa * pow10(s) == truncated_rem(x, y) * pow10(r.scale)
    }

    /// `r` is `self` brought as near to `target` fractional digits as the
    /// mantissa's 96 bits allow, by appending zeros.
    pub open spec fn is_scaled_up_towards(self, target: nat, r: DecimalValue) -> bool {
        let magnitude = if self.mantissa < 0 { -self.mantissa } else { self.mantissa };
        &&& self.scale <= r.scale <= target
        &&& r.mantissa == self.mantissa * pow10((r.scale - self.scale) as nat)
        &&& r.scale < target ==> magnitude * pow10((r.scale - self.scale + 1) as nat)
            > MAX_MANTISSA
    }
}

/// A power of ten is at least one.
pub proof fn lemma_pow10_positive(e: nat)
    ensures
        pow10(e) >= 1,
    decreases e,
{
    if e > 0 {
        lemma_pow10_positive((e - 1) as nat);
    }
}

/// Exponents add where powers multiply.
pub proof fn lemma_pow10_adds(a: nat, b: nat)
    ensures
        pow10(a + b) == pow10(a) * pow10(b),
    decreases a,
{
    if a > 0 {
        lemma_pow10_adds((a - 1) as nat, b);
        assert(((a + b) - 1) as nat == (a - 1) as nat + b);
        assert(pow10(a + b) == 10 * pow10(((a + b) - 1) as nat));
        assert(10 * (pow10((a - 1) as nat) * pow10(b)) == (10 * pow10((a - 1) as nat)) * pow10(b))
            by (nonlinear_arith);
    } else {
        assert(1 * pow10(b) == pow10(b));
    }
}

/// A larger exponent gives a power that is no smaller.
pub proof fn lemma_pow10_monotone(a: nat, b: nat)
    requires
        a <= b,
    ensures
        pow10(a) <= pow10(b),
{
    lemma_pow10_adds(a, (b - a) as nat);
    lemma_pow10_positive((b - a) as nat);
    lemma_pow10_positive(a);
    assert(pow10(a) * pow10((b - a) as nat) >= pow10(a)) by (nonlinear_arith)
        requires
            pow10((b - a) as nat) >= 1,
            pow10(a) >= 1,
    ;
}

/// A positive power of ten is a multiple of ten.
pub proof fn lemma_pow10_ends_in_zero(e: nat)
    requires
        e >= 1,
    ensures
        pow10(e) % 10 == 0,
        pow10(e) == 10 * pow10((e - 1) as nat),
{
}

/// A common positive factor can be cancelled.
pub proof fn lemma_cancel(x: int, y: int, p: int)
    requires
        p > 0,
        x * p == y * p,
    ensures
        x == y,
{
    assert(x == y) by (nonlinear_arith)
        requires
            p > 0,
            x * p == y * p,
    ;
}

/// A product with `q` leaves no remainder when divided by `q`.
pub proof fn lemma_multiple_is_divisible(k: int, q: int)
    requires
        q > 0,
    ensures
        (k * q) % q == 0,
{
    lemma_mod_multiples_basic(k, q);
}

/// What leaves no remainder when divided by `q` is `q` times the quotient.
pub proof fn lemma_divisible_is_multiple(x: int, q: int)
    requires
        q > 0,
        x % q == 0,
    ensures
        x == (x / q) * q,
{
    lemma_fundamental_div_mod(x, q);
    assert(q * (x / q) == (x / q) * q) by (nonlinear_arith);
}

/// A number is a multiple of `q` exactly when its negation is.
pub proof fn lemma_negation_keeps_divisibility(x: int, q: int)
    requires
        q > 0,
    ensures
        ((-x) % q == 0) <==> (x % q == 0),
{
    if x % q == 0 {
        lemma_divisible_is_multiple(x, q);
        let k = x / q;
        assert(-x == (-k) * q) by (nonlinear_arith)
            requires
                x == k * q,
        ;
        lemma_multiple_is_divisible(-k, q);
    }
    if (-x) % q == 0 {
        lemma_divisible_is_multiple(-x, q);
        let k = (-x) / q;
        assert(x == (-k) * q) by (nonlinear_arith)
            requires
                -x == k * q,
        ;
        lemma_multiple_is_divisible(-k, q);
    }
}

/// Of two values for the same number, the one with the larger scale has the
/// other's mantissa followed by zeros.
pub proof fn lemma_same_value_scaled(r: DecimalValue, d: DecimalValue)
    requires
        r.same_value(d),
        r.scale <= d.scale,
    ensures
        d.mantissa == r.mantissa * pow10((d.scale - r.scale) as nat),
{
    let diff = (d.scale - r.scale) as nat;
    lemma_pow10_adds(r.scale, diff);
    lemma_pow10_positive(r.scale);
    assert(r.scale + diff == d.scale);
    let p = pow10(r.scale) as int;
    let q = pow10(diff) as int;
    assert(r.mantissa * (p * q) == (r.mantissa * q) * p) by (nonlinear_arith);
    lemma_cancel(r.mantissa * q, d.mantissa, p);
}

/// Standing for the same number is symmetric and transitive.
pub proof fn lemma_same_value_transitive(a: DecimalValue, b: DecimalValue, c: DecimalValue)
    requires
        a.same_value(b),
        b.same_value(c),
    ensures
        a.same_value(c),
        b.same_value(a),
{
    let pa = pow10(a.scale) as int;
    let pb = pow10(b.scale) as int;
    let pc = pow10(c.scale) as int;
    lemma_pow10_positive(b.scale);
    assert((a.mantissa * pc) * pb == (c.mantissa * pa) * pb) by (nonlinear_arith)
        requires
            a.mantissa * pb == b.mantissa * pa,
            b.mantissa * pc == c.mantissa * pb,
    ;
    lemma_cancel(a.mantissa * pc, c.mantissa * pa, pb);
}

/// What removing the trailing zeros keeps and gives: the same number, no
/// more digits than before, no trailing zero left, and a mantissa that is
/// no larger in magnitude.
pub proof fn lemma_canonical(d: DecimalValue)
    ensures
        d.canonical().same_value(d),
        d.canonical().scale <= d.scale,
        d.canonical().is_stripped(),
        d.mantissa >= 0 ==> 0 <= d.canonical().mantissa <= d.mantissa,
        d.mantissa <= 0 ==> d.mantissa <= d.canonical().mantissa <= 0,
        d.representable() ==> d.canonical().representable(),
    decreases d.scale,
{
    if d.mantissa == 0 {
        assert(0 * pow10(d.scale) == 0 * pow10(0)) by (nonlinear_arith);
    } else if d.scale > 0 && d.mantissa % 10 == 0 {
        let inner = DecimalValue { mantissa: d.mantissa / 10, scale: (d.scale - 1) as nat };
        let c = inner.canonical();
        lemma_canonical(inner);
        assert(d.mantissa == 10 * inner.mantissa);
        let pc = pow10(c.scale) as int;
        let pi = pow10(inner.scale) as int;
        assert(pow10(d.scale) == 10 * pi);
        assert(c.mantissa * (10 * pi) == (10 * inner.mantissa) * pc) by (nonlinear_arith)
            requires
                c.mantissa * pi == inner.mantissa * pc,
        ;
    }
}

/// The canonical form is the only stripped value for the number with no
/// more digits than the given one.
pub proof fn lemma_stripped_is_canonical(r: DecimalValue, d: DecimalValue)
    requires
        r.same_value(d),
        r.scale <= d.scale,
        r.is_stripped(),
    ensures
        r == d.canonical(),
    decreases d.scale,
{
    lemma_same_value_scaled(r, d);
    let diff = (d.scale - r.scale) as nat;
    if d.mantissa == 0 {
        lemma_pow10_positive(diff);
        assert(r.mantissa == 0) by (nonlinear_arith)
            requires
                0 == r.mantissa * pow10(diff),
                pow10(diff) >= 1,
        ;
    } else if d.scale > 0 && d.mantissa % 10 == 0 {
        let inner = DecimalValue { mantissa: d.mantissa / 10, scale: (d.scale - 1) as nat };
        if diff == 0 {
            assert(pow10(0) == 1);
            assert(r.mantissa * 1 == r.mantissa);
            assert(false);
        }
        lemma_pow10_ends_in_zero(diff);
        let q = pow10((diff - 1) as nat) as int;
        assert(r.mantissa * (10 * q) == 10 * (r.mantissa * q)) by (nonlinear_arith);
        assert(inner.mantissa == r.mantissa * q);
        lemma_pow10_adds(r.scale, (diff - 1) as nat);
        assert(r.scale + (diff - 1) as nat == inner.scale);
        let p = pow10(r.scale) as int;
        assert(r.mantissa * (p * q) == (r.mantissa * q) * p) by (nonlinear_arith);
        assert(r.same_value(inner));
        lemma_stripped_is_canonical(r, inner);
    } else {
        if diff > 0 {
            lemma_pow10_ends_in_zero(diff);
            let q = pow10((diff - 1) as nat) as int;
            assert(r.mantissa * (10 * q) == 10 * (r.mantissa * q)) by (nonlinear_arith);
            assert(d.mantissa % 10 == 0);
            assert(false);
        }
        assert(pow10(0) == 1);
        assert(r.mantissa * 1 == r.mantissa);
    }
}

/// A multiple of a positive power of ten is a multiple of ten.
pub proof fn lemma_multiple_of_power_ends_in_zero(m: int, e: nat)
    requires
        e >= 1,
        m % (pow10(e) as int) == 0,
    ensures
        m % 10 == 0,
{
    lemma_pow10_positive(e);
    lemma_divisible_is_multiple(m, pow10(e) as int);
    let k = m / (pow10(e) as int);
    let q = pow10((e - 1) as nat) as int;
    assert(k * (10 * q) == (k * q) * 10) by (nonlinear_arith);
    lemma_multiple_is_divisible(k * q, 10);
}

/// Being a multiple of `10^-unit_scale`, said without a case split: the
/// mantissa times `10^unit_scale` is a multiple of `10^scale`.
pub proof fn lemma_multiple_of_unit_as_product(d: DecimalValue, unit_scale: nat)
    ensures
        d.is_multiple_of_unit(unit_scale) <==> (d.mantissa * pow10(unit_scale)) % (pow10(
            d.scale,
        ) as int) == 0,
{
    let pk = pow10(unit_scale) as int;
    let ps = pow10(d.scale) as int;
    lemma_pow10_positive(unit_scale);
    lemma_pow10_positive(d.scale);
    if d.scale <= unit_scale {
        let q = pow10((unit_scale - d.scale) as nat) as int;
        lemma_pow10_adds(d.scale, (unit_scale - d.scale) as nat);
        assert(d.scale + (unit_scale - d.scale) as nat == unit_scale);
        assert(d.mantissa * (ps * q) == (d.mantissa * q) * ps) by (nonlinear_arith);
        lemma_multiple_is_divisible(d.mantissa * q, ps);
    } else {
        let q = pow10((d.scale - unit_scale) as nat) as int;
        lemma_pow10_positive((d.scale - unit_scale) as nat);
        lemma_pow10_adds(unit_scale, (d.scale - unit_scale) as nat);
        assert(unit_scale + (d.scale - unit_scale) as nat == d.scale);
        assert(ps == pk * q);
        if d.mantissa % q == 0 {
            lemma_divisible_is_multiple(d.mantissa, q);
            let j = d.mantissa / q;
            assert((j * q) * pk == j * (pk * q)) by (nonlinear_arith);
            lemma_multiple_is_divisible(j, ps);
        }
        if (d.mantissa * pk) % ps == 0 {
            lemma_divisible_is_multiple(d.mantissa * pk, ps);
            let j = (d.mantissa * pk) / ps;
            assert(j * (pk * q) == (j * q) * pk) by (nonlinear_arith);
            lemma_cancel(d.mantissa, j * q, pk);
            lemma_multiple_is_divisible(j, q);
        }
    }
}

/// Whether a number is a multiple of a unit depends on the number alone,
/// not on the scale it is written with.
pub proof fn lemma_multiple_of_unit_by_value(a: DecimalValue, b: DecimalValue, unit_scale: nat)
    requires
        a.same_value(b),
    ensures
        a.is_multiple_of_unit(unit_scale) == b.is_multiple_of_unit(unit_scale),
{
    lemma_multiple_of_unit_as_product(a, unit_scale);
    lemma_multiple_of_unit_as_product(b, unit_scale);
    lemma_same_value_transitive(a, b, b);
    if (a.mantissa * pow10(unit_scale)) % (pow10(a.scale) as int) == 0 {
        lemma_product_multiple_carries_over(a, b, unit_scale);
    }
    if (b.mantissa * pow10(unit_scale)) % (pow10(b.scale) as int) == 0 {
        lemma_product_multiple_carries_over(b, a, unit_scale);
    }
}

/// One direction of the above: the product form of being a multiple passes
/// from one value to any other that stands for the same number.
proof fn lemma_product_multiple_carries_over(a: DecimalValue, b: DecimalValue, unit_scale: nat)
    requires
        a.same_value(b),
        (a.mantissa * pow10(unit_scale)) % (pow10(a.scale) as int) == 0,
    ensures
        (b.mantissa * pow10(unit_scale)) % (pow10(b.scale) as int) == 0,
{
    let pk = pow10(unit_scale) as int;
    let pa = pow10(a.scale) as int;
    let pb = pow10(b.scale) as int;
    lemma_pow10_positive(a.scale);
    lemma_pow10_positive(b.scale);
    lemma_divisible_is_multiple(a.mantissa * pk, pa);
    let j = (a.mantissa * pk) / pa;
    assert((b.mantissa * pk) * pa == (j * pb) * pa) by (nonlinear_arith)
        requires
            a.mantissa * pb == b.mantissa * pa,
            a.mantissa * pk == j * pa,
    ;
    lemma_cancel(b.mantissa * pk, j * pb, pa);
    lemma_multiple_is_divisible(j, pb);
}

/// A number in normal form for `min_scale` is its own normal form.
pub proof fn lemma_normal_is_fixed(d: DecimalValue, min_scale: nat)
    requires
        d.is_normal(min_scale),
    ensures
        d.normalized(min_scale) == d,
{
    let c = d.canonical();
    lemma_canonical(d);
    if d.scale == min_scale {
        lemma_same_value_scaled(c, d);
        if c.scale == d.scale {
            assert(pow10(0) == 1);
            assert(c.mantissa * 1 == c.mantissa);
        }
    } else {
        assert(d.mantissa != 0);
    }
}

/// The normal form stands for the same number, is in normal form, and has
/// `min_scale` digits unless the number itself needs more.
pub proof fn lemma_normalized(d: DecimalValue, min_scale: nat)
    ensures
        d.normalized(min_scale).same_value(d),
        d.normalized(min_scale).is_normal(min_scale),
        d.normalized(min_scale).scale == if d.canonical().scale < min_scale {
            min_scale
        } else {
            d.canonical().scale
        },
{
    let c = d.canonical();
    let n = d.normalized(min_scale);
    lemma_canonical(d);
    if c.scale < min_scale {
        let diff = (min_scale - c.scale) as nat;
        lemma_pow10_adds(c.scale, diff);
        assert(c.scale + diff == min_scale);
        let pc = pow10(c.scale) as int;
        let pd = pow10(diff) as int;
        assert((c.mantissa * pd) * pc == c.mantissa * (pc * pd)) by (nonlinear_arith);
        assert(n.same_value(c));
        lemma_same_value_transitive(n, c, d);
    }
}

/// A stripped number that is a multiple of `10^-unit_scale` has at most
/// `unit_scale` fractional digits.
pub proof fn lemma_stripped_multiple_is_short(c: DecimalValue, unit_scale: nat)
    requires
        c.is_stripped(),
        c.is_multiple_of_unit(unit_scale),
    ensures
        c.scale <= unit_scale,
{
    if c.scale > unit_scale {
        lemma_multiple_of_power_ends_in_zero(c.mantissa, (c.scale - unit_scale) as nat);
    }
}

/// Two values stand for the same number exactly when their canonical forms
/// are one and the same.
pub proof fn lemma_same_value_iff_same_canonical(a: DecimalValue, b: DecimalValue)
    ensures
        a.same_value(b) <==> a.canonical() == b.canonical(),
{
    let ca = a.canonical();
    let cb = b.canonical();
    lemma_canonical(a);
    lemma_canonical(b);
    if ca == cb {
        // a stands for what its canonical form stands for, and so does b.
        lemma_same_value_transitive(ca, a, a);
        lemma_same_value_transitive(a, ca, b);
    }
    if a.same_value(b) {
        lemma_same_value_transitive(ca, a, b);
        if ca.scale > b.scale {
            // Then ca would be b with zeros appended, and not stripped.
            lemma_same_value_transitive(ca, b, b);
            lemma_same_value_scaled(b, ca);
            lemma_pow10_ends_in_zero((ca.scale - b.scale) as nat);
            let q = pow10((ca.scale - b.scale - 1) as nat) as int;
            assert(b.mantissa * (10 * q) == (b.mantissa * q) * 10) by (nonlinear_arith);
            lemma_multiple_is_divisible(b.mantissa * q, 10);
        }
        lemma_stripped_is_canonical(ca, b);
    }
}

/// Among the values in normal form for one minimum scale, each number has
/// a single representation.
pub proof fn lemma_normal_form_is_unique(a: DecimalValue, b: DecimalValue, min_scale: nat)
    requires
        a.is_normal(min_scale),
        b.is_normal(min_scale),
        a.same_value(b),
    ensures
        a == b,
{
    lemma_same_value_iff_same_canonical(a, b);
    lemma_normal_is_fixed(a, min_scale);
    lemma_normal_is_fixed(b, min_scale);
}

} // verus!
