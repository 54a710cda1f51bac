use vstd::prelude::*;
use vstd::wrapping::i64_specs;

verus! {

/// The values that a (sub-)expression may take without violating the range of the
/// variable it is assigned to.
///
/// A floating-point bound is held by the bits of its IEEE-754 double.
#[derive(Clone, Copy, PartialEq, Eq, Debug)]
pub enum PermissibleBounds {
    IntegerRange { min: i64, max: i64 },
    FloatRange { min_bits: u64, max_bits: u64 },
    Unknown,
}

/// The smaller of two integers.
pub open spec fn min_i64(a: i64, b: i64) -> i64 {
    if a <= b { a } else { b }
}

/// The larger of two integers.
pub open spec fn max_i64(a: i64, b: i64) -> i64 {
    if a >= b { a } else { b }
}

/// The range spanned by two values, whichever of them is smaller.
pub open spec fn spanned_range(a: i64, b: i64) -> PermissibleBounds {
    PermissibleBounds::IntegerRange { min: min_i64(a, b), max: max_i64(a, b) }
}

/// `v` saturated to the `i64` range, as a float-to-integer cast does.
pub open spec fn saturate(v: int) -> i64 {
    if v > i64::MAX { i64::MAX } else if v < i64::MIN { i64::MIN } else { v as i64 }
}

/// The magnitude of an integer.
pub open spec fn abs(v: int) -> int {
    if v < 0 { -v } else { v }
}

/// The quotient `x / d` rounded up (`up`) or down and saturated to `i64`, for `d != 0`:
/// what `(x as f64 / d as f64).ceil() as i64` (or `.floor()`) gives wherever the double
/// quotient is exact.
pub open spec fn rounded_quotient(x: i64, d: i64, up: bool) -> i64 {
    let q = abs(x as int) / abs(d as int);
    let exact = abs(x as int) % abs(d as int) == 0;
    let negative = x != 0 && ((x < 0) != (d < 0));
    let r: int = if !negative {
        if up && !exact { q + 1 } else { q }
    } else {
        if !up && !exact { -(q + 1) } else { -q }
    };
    saturate(r)
}

/// Whether `v` lies between `low` and `high`, both included.
pub open spec fn within(v: int, low: int, high: int) -> bool {
    low <= v <= high
}

/// The rounded quotient is the integer next to `x / d` on the side it rounds to: rounding up
/// gives the least `q` whose multiple `d * q` reaches `x` from the side of `d`'s sign, rounding
/// down the greatest. (`i64::MIN / -1` is left out: its quotient does not fit in `i64`.)
pub proof fn lemma_rounded_quotient(x: i64, d: i64, up: bool)
    requires
        d != 0,
        !(d == -1 && x == i64::MIN),
    ensures
        ({
            let q = rounded_quotient(x, d, up) as int;
            &&& (d > 0 && up) ==> d * q >= x && d * (q - 1) < x
            &&& (d > 0 && !up) ==> d * q <= x && d * (q + 1) > x
            &&& (d < 0 && up) ==> d * q <= x && d * (q - 1) > x
            &&& (d < 0 && !up) ==> d * q >= x && d * (q + 1) < x
        }),
{
    let ax = abs(x as int);
    let ad = abs(d as int);
    let qq = ax / ad;
    let m = ax % ad;
    assert(ad * qq + m == ax && 0 <= m < ad) by (nonlinear_arith)
        requires ad > 0, qq == ax / ad, m == ax % ad, ax >= 0;
    assert(qq <= ax) by (nonlinear_arith)
        requires ad >= 1, ad * qq + m == ax, 0 <= m, qq >= 0 || ax >= 0;
    assert(qq >= 0) by (nonlinear_arith)
        requires ad > 0, qq == ax / ad, ax >= 0;
    if ad >= 2 {
        assert(2 * qq <= ax) by (nonlinear_arith)
            requires ad >= 2, ad * qq + m == ax, 0 <= m, qq >= 0;
    }
    let exact = m == 0;
    let negative = x != 0 && ((x < 0) != (d < 0));
    let r: int = if !negative {
        if up && !exact { qq + 1 } else { qq }
    } else {
        if !up && !exact { -(qq + 1) } else { -qq }
    };
    if ad == 1 {
        assert(m == 0);
    }
    assert(i64::MIN <= r <= i64::MAX);
    assert(rounded_quotient(x, d, up) as int == r);
    let xi = x as int;
    let di = d as int;
    if di > 0 {
        assert(di == ad);
        if xi >= 0 {
            assert(xi == ax);
            assert(di * qq == xi - m);
            assert(di * (qq + 1) == xi - m + di) by (nonlinear_arith) requires di * qq == xi - m;
            assert(di * (qq - 1) == xi - m - di) by (nonlinear_arith) requires di * qq == xi - m;
            assert(di * (qq + 2) == xi - m + 2 * di) by (nonlinear_arith) requires di * qq == xi - m;
        } else {
            assert(xi == -ax);
            assert(di * (-qq) == xi + m) by (nonlinear_arith) requires ad * qq + m == ax, di == ad, xi == -ax;
            assert(di * (-qq - 1) == xi + m - di) by (nonlinear_arith) requires di * (-qq) == xi + m;
            assert(di * (-qq + 1) == xi + m + di) by (nonlinear_arith) requires di * (-qq) == xi + m;
            assert(di * (-qq - 2) == xi + m - 2 * di) by (nonlinear_arith) requires di * (-qq) == xi + m;
        }
    } else {
        assert(di == -ad);
        if xi > 0 {
            assert(xi == ax);
            assert(di * (-qq) == xi - m) by (nonlinear_arith) requires ad * qq + m == ax, di == -ad, xi == ax;
            assert(di * (-qq - 1) == xi - m - di) by (nonlinear_arith) requires di * (-qq) == xi - m;
            assert(di * (-qq + 1) == xi - m + di) by (nonlinear_arith) requires di * (-qq) == xi - m;
            assert(di * (-qq - 2) == xi - m - 2 * di) by (nonlinear_arith) requires di * (-qq) == xi - m;
        } else {
            assert(xi == -ax);
            assert(di * qq == xi + m) by (nonlinear_arith) requires ad * qq + m == ax, di == -ad, xi == -ax;
            assert(di * (qq + 1) == xi + m + di) by (nonlinear_arith) requires di * qq == xi + m;
            assert(di * (qq - 1) == xi + m - di) by (nonlinear_arith) requires di * qq == xi + m;
            assert(di * (qq + 2) == xi + m + 2 * di) by (nonlinear_arith) requires di * qq == xi + m;
        }
    }
}

proof fn lemma_times_monotone(d: int, v: int, w: int)
    requires
        v <= w,
    ensures
        d > 0 ==> d * v <= d * w,
        d < 0 ==> d * v >= d * w,
{
    assert(d > 0 ==> d * v <= d * w) by (nonlinear_arith) requires v <= w;
    assert(d < 0 ==> d * v >= d * w) by (nonlinear_arith) requires v <= w;
}

/// Dividing integer bounds `[low, high]` by a non-zero `d` (as
/// `apply_integer_operation_with_rounding` does) keeps exactly the integers whose product with
/// `d` lies within the bounds. (`i64::MIN / -1` is left out: it does not fit in `i64`.)
pub proof fn law_divided_bounds_are_preimage(low: i64, high: i64, d: i64)
    requires
        low <= high,
        d != 0,
        !(d == -1 && (low == i64::MIN || high == i64::MIN)),
    ensures
        divided_bounds(PermissibleBounds::IntegerRange { min: low, max: high }, d) matches PermissibleBounds::IntegerRange { min, max }
            && forall|v: i64| #[trigger] within(v as int, min as int, max as int) <==> within(d * v, low as int, high as int),
{
    let first = smaller_quotient_end(low, high, d);
    let last = larger_quotient_end(low, high, d);
    lemma_rounded_quotient(first, d, true);
    lemma_rounded_quotient(last, d, false);
    let min = rounded_quotient(first, d, true) as int;
    let max = rounded_quotient(last, d, false) as int;
    let di = d as int;
    assert forall|v: i64| #[trigger] within(v as int, min, max) <==> within(d * v, low as int, high as int) by {
        let vi = v as int;
        if d > 0 {
            assert(first == low && last == high);
            if vi >= min { lemma_times_monotone(di, min, vi); } else { lemma_times_monotone(di, vi, min - 1); }
            if vi <= max { lemma_times_monotone(di, vi, max); } else { lemma_times_monotone(di, max + 1, vi); }
        } else {
            assert(first == high && last == low);
            if vi >= min { lemma_times_monotone(di, min, vi); } else { lemma_times_monotone(di, vi, min - 1); }
            if vi <= max { lemma_times_monotone(di, vi, max); } else { lemma_times_monotone(di, max + 1, vi); }
        }
    }
}

/// The float quotient of a zero divisor, seen as `-1` (negative infinity), `1` (positive
/// infinity) or `0` (not a number).
pub open spec fn zero_division_sign(x: i64) -> int {
    if x > 0 { 1 } else if x < 0 { -1 } else { 0 }
}

impl PermissibleBounds {
    /// Raises the lower end of an integer range to at least `constraint`.
    pub fn add_min_int_constraint(&mut self, constraint: i64)
        requires
            *old(self) is IntegerRange,
        ensures
            *final(self) == (PermissibleBounds::IntegerRange {
                min: max_i64((*old(self))->min, constraint),
                max: (*old(self))->max,
            }),
    {
        match self {
            PermissibleBounds::IntegerRange { min, .. } => {
                if constraint > *min {
                    *min = constraint;
                }
            },
            _ => {},
        }
    }

    /// Lowers the upper end of an integer range to at most `constraint`.
    pub fn add_max_int_constraint(&mut self, constraint: i64)
        requires
            *old(self) is IntegerRange,
        ensures
            *final(self) == (PermissibleBounds::IntegerRange {
                min: (*old(self))->min,
                max: min_i64((*old(self))->max, constraint),
            }),
    {
        match self {
            PermissibleBounds::IntegerRange { max, .. } => {
                if constraint < *max {
                    *max = constraint;
                }
            },
            _ => {},
        }
    }

    /// The lower end of an integer range.
    pub fn min_int(&self) -> (m: i64)
        requires
            self is IntegerRange,
        ensures
            m == self->min,
    {
        match self {
            PermissibleBounds::IntegerRange { min, .. } => *min,
            _ => 0,
        }
    }

    /// The upper end of an integer range.
    pub fn max_int(&self) -> (m: i64)
        requires
            self is IntegerRange,
        ensures
            m == self->max,
    {
        match self {
            PermissibleBounds::IntegerRange { max, .. } => *max,
            _ => 0,
        }
    }

    /// Maps both ends of an integer range through `op` and orders the results; any other
    /// bound becomes unknown.
    pub fn apply_integer_operation<F: Fn(i64) -> i64>(self, op: F) -> (r: PermissibleBounds)
        requires
            forall|x: i64| #[trigger] op.requires((x,)),
        ensures
            self is IntegerRange ==> exists|a: i64, b: i64|
                op.ensures((self->min,), a) && op.ensures((self->max,), b)
                    && r == spanned_range(a, b),
            !(self is IntegerRange) ==> r == PermissibleBounds::Unknown,
    {
        match self {
            PermissibleBounds::IntegerRange { min, max } => {
                let a = op(min);
                let b = op(max);
                let r = PermissibleBounds::IntegerRange {
                    min: if a <= b { a } else { b },
                    max: if a >= b { a } else { b },
                };
                assert(op.ensures((min,), a) && op.ensures((max,), b) && r == spanned_range(a, b));
                r
            },
            _ => PermissibleBounds::Unknown,
        }
    }

    /// Divides both ends of an integer range by `divisor`, keeping the integers inside the
    /// resulting interval (the smaller quotient rounded up, the larger rounded down); any
    /// other bound becomes unknown.
    pub fn apply_integer_operation_with_rounding(self, divisor: i64) -> (r: PermissibleBounds)
        ensures
            r == divided_bounds(self, divisor),
    {
        match self {
            PermissibleBounds::IntegerRange { min, max } => {
                if divisor == 0 {
                    zero_division(min, max)
                } else {
                    let lo = if divisor > 0 { if min <= max { min } else { max } } else { if min >= max { min } else { max } };
                    let hi = if divisor > 0 { if min <= max { max } else { min } } else { if min >= max { max } else { min } };
                    PermissibleBounds::IntegerRange {
                        min: rounded_div(lo, divisor, true),
                        max: rounded_div(hi, divisor, false),
                    }
                }
            },
            _ => PermissibleBounds::Unknown,
        }
    }

    /// Negates a range: an integer range `[min, max]` becomes `[-max, -min]` (wrapping as
    /// `i64` arithmetic does), a float range swaps its ends and flips their sign bits, and
    /// an unknown bound stays unknown.
    pub fn apply_numeric_negation(self) -> (r: PermissibleBounds)
        ensures
            r == negated_bounds(self),
    {
        match self {
            PermissibleBounds::IntegerRange { .. } => {
                self.apply_integer_operation(|v: i64| -> (r: i64)
                    ensures r == i64_specs::wrapping_sub(0, v),
                    { 0i64.wrapping_sub(v) })
            },
            PermissibleBounds::FloatRange { min_bits, max_bits } => PermissibleBounds::FloatRange {
                min_bits: max_bits ^ 0x8000_0000_0000_0000u64,
                max_bits: min_bits ^ 0x8000_0000_0000_0000u64,
            },
            PermissibleBounds::Unknown => PermissibleBounds::Unknown,
        }
    }
}

/// The bounds of `x / divisor` for `x` within `b`: the integers inside the interval of the
/// quotients of the ends (the smaller rounded up, the larger rounded down).
pub open spec fn divided_bounds(b: PermissibleBounds, divisor: i64) -> PermissibleBounds {
    match b {
        PermissibleBounds::IntegerRange { min, max } =>
            if divisor != 0 {
                PermissibleBounds::IntegerRange {
                    min: rounded_quotient(smaller_quotient_end(min, max, divisor), divisor, true),
                    max: rounded_quotient(larger_quotient_end(min, max, divisor), divisor, false),
                }
            } else {
                zero_division_range(min, max)
            },
        _ => PermissibleBounds::Unknown,
    }
}

/// The bounds of `-x` for `x` within `b`.
pub open spec fn negated_bounds(b: PermissibleBounds) -> PermissibleBounds {
    match b {
        PermissibleBounds::IntegerRange { min, max } =>
            spanned_range(i64_specs::wrapping_sub(0, min), i64_specs::wrapping_sub(0, max)),
        PermissibleBounds::FloatRange { min_bits, max_bits } =>
            PermissibleBounds::FloatRange { min_bits: flip_sign(max_bits), max_bits: flip_sign(min_bits) },
        PermissibleBounds::Unknown => PermissibleBounds::Unknown,
    }
}

/// The bounds of `f(x)` for `x` within `b`, for a monotone or antitone `f`.
pub open spec fn mapped_bounds(b: PermissibleBounds, f: spec_fn(i64) -> i64) -> PermissibleBounds {
    match b {
        PermissibleBounds::IntegerRange { min, max } => spanned_range(f(min), f(max)),
        _ => PermissibleBounds::Unknown,
    }
}

/// The bits of a double with its sign bit flipped: its negation.
pub open spec fn flip_sign(bits: u64) -> u64 {
    bits ^ 0x8000_0000_0000_0000u64
}

/// The saturated quotient of a zero divisor.
pub open spec fn zero_division_value(x: i64) -> i64 {
    if x > 0 { i64::MAX } else if x < 0 { i64::MIN } else { 0 }
}

/// What dividing `[min, max]` by zero gives: the ends become infinities of their signs (or
/// not-a-number for zero); the float minimum and maximum skip a not-a-number end.
pub open spec fn zero_division_range(min: i64, max: i64) -> PermissibleBounds {
    let a = zero_division_sign(min);
    let b = zero_division_sign(max);
    if a == 0 && b == 0 {
        PermissibleBounds::IntegerRange { min: 0, max: 0 }
    } else if a == 0 {
        PermissibleBounds::IntegerRange { min: zero_division_value(max), max: zero_division_value(max) }
    } else if b == 0 {
        PermissibleBounds::IntegerRange { min: zero_division_value(min), max: zero_division_value(min) }
    } else {
        let lo = if a <= b { min } else { max };
        let hi = if a <= b { max } else { min };
        PermissibleBounds::IntegerRange { min: zero_division_value(lo), max: zero_division_value(hi) }
    }
}

fn zero_division(min: i64, max: i64) -> (r: PermissibleBounds)
    ensures
        r == zero_division_range(min, max),
{
    let a: i64 = if min > 0 { 1 } else if min < 0 { -1 } else { 0 };
    let b: i64 = if max > 0 { 1 } else if max < 0 { -1 } else { 0 };
    let va: i64 = if min > 0 { i64::MAX } else if min < 0 { i64::MIN } else { 0 };
    let vb: i64 = if max > 0 { i64::MAX } else if max < 0 { i64::MIN } else { 0 };
    if a == 0 && b == 0 {
        PermissibleBounds::IntegerRange { min: 0, max: 0 }
    } else if a == 0 {
        PermissibleBounds::IntegerRange { min: vb, max: vb }
    } else if b == 0 {
        PermissibleBounds::IntegerRange { min: va, max: va }
    } else if a <= b {
        PermissibleBounds::IntegerRange { min: va, max: vb }
    } else {
        PermissibleBounds::IntegerRange { min: vb, max: va }
    }
}

/// Of `min` and `max`, the one whose quotient by `d` is the smaller.
pub open spec fn smaller_quotient_end(min: i64, max: i64, d: i64) -> i64 {
    if d > 0 { if min <= max { min } else { max } } else { if min >= max { min } else { max } }
}

/// Of `min` and `max`, the one whose quotient by `d` is the larger.
pub open spec fn larger_quotient_end(min: i64, max: i64, d: i64) -> i64 {
    if d > 0 { if min <= max { max } else { min } } else { if min >= max { max } else { min } }
}

/// The magnitude of an `i64`.
fn magnitude(x: i64) -> (m: u64)
    ensures
        m as int == abs(x as int),
{
    if x < 0 {
        if x == i64::MIN {
            0x8000_0000_0000_0000u64
        } else {
            (-x) as u64
        }
    } else {
        x as u64
    }
}

/// `x / d` rounded up (`up`) or down, saturated to `i64` (`d != 0`).
fn rounded_div(x: i64, d: i64, up: bool) -> (r: i64)
    requires
        d != 0,
    ensures
        r == rounded_quotient(x, d, up),
{
    let a = magnitude(x);
    let b = magnitude(d);
    let q = a / b;
    let exact = a % b == 0;
    let negative = x != 0 && ((x < 0) != (d < 0));
    // q <= a <= 2^63, so q + 1 fits in i128 and the negation too.
    let qi = q as i128;
    let v: i128 = if !negative {
        if up && !exact { qi + 1 } else { qi }
    } else {
        if !up && !exact { -(qi + 1) } else { -qi }
    };
    if v > i64::MAX as i128 {
        i64::MAX
    } else if v < i64::MIN as i128 {
        i64::MIN
    } else {
        v as i64
    }
}

} // verus!
