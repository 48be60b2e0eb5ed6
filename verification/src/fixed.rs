//! Saturating signed fixed-point arithmetic in the Q32.32 format.
//!
//! A [`Fix`] carries the integer `raw`, standing for the rational number
//! `raw / FIX_SCALE`. Every operation is total: sums saturate at
//! `FIX_MAX_RAW`, products and quotients at the smaller `FIX_MUL_MAX_RAW`,
//! so that a short sum of products can never saturate. Each operation's
//! contract states its result exactly over the spec-level counterparts
//! `q_add`, `q_sub`, `q_mul`, `q_div`.

use vstd::prelude::*;

verus! {

/// Denominator of the Q32.32 format: a `Fix` with raw value `r` stands for
/// the rational `r / FIX_SCALE`. Equal to 2^32.
pub const FIX_SCALE: i128 = 4294967296;

/// Largest raw magnitude a well-formed `Fix` carries (2^62); sums saturate
/// here.
pub const FIX_MAX_RAW: i128 = 4611686018427387904;

/// Largest raw magnitude a product or quotient carries (2^59). Keeping this
/// an eighth of `FIX_MAX_RAW` means a sum of up to eight products stays
/// exact.
pub const FIX_MUL_MAX_RAW: i128 = 576460752303423488;

/// A Q32.32 fixed-point number: the rational `raw / FIX_SCALE`.
#[derive(Clone, Copy, PartialEq, Eq, Structural, Debug)]
pub struct Fix {
    pub raw: i128,
}

/// Clamp `x` into `[-bound, bound]`.
pub open spec fn q_clamp(x: int, bound: int) -> int {
    if x > bound {
        bound
    } else if x < -bound {
        -bound
    } else {
        x
    }
}

/// Magnitude of an integer.
pub open spec fn q_abs(x: int) -> int {
    if x < 0 {
        -x
    } else {
        x
    }
}

/// Division that rounds toward zero, for a positive divisor.
pub open spec fn q_tdiv(x: int, d: int) -> int {
    if x >= 0 {
        x / d
    } else {
        -((-x) / d)
    }
}

/// Saturating addition of raw values.
pub open spec fn q_add(a: int, b: int) -> int {
    q_clamp(a + b, FIX_MAX_RAW as int)
}

/// Saturating subtraction of raw values.
pub open spec fn q_sub(a: int, b: int) -> int {
    q_clamp(a - b, FIX_MAX_RAW as int)
}

/// Saturating fixed-point product of raw values: truncate `a*b / FIX_SCALE`
/// toward zero, then clamp.
pub open spec fn q_mul(a: int, b: int) -> int {
    q_clamp(q_tdiv(a * b, FIX_SCALE as int), FIX_MUL_MAX_RAW as int)
}

/// Saturating fixed-point quotient of raw values; zero when the divisor is
/// zero, mirroring the engine's explicit zero guards.
pub open spec fn q_div(a: int, b: int) -> int {
    if b == 0 {
        0
    } else {
        q_clamp(q_tdiv_signed(a * FIX_SCALE, b), FIX_MUL_MAX_RAW as int)
    }
}

/// Division rounding toward zero for any nonzero divisor.
pub open spec fn q_tdiv_signed(x: int, d: int) -> int {
    if (x < 0) != (d < 0) {
        -(q_abs(x) / q_abs(d))
    } else {
        q_abs(x) / q_abs(d)
    }
}

/// Larger of two raw values.
pub open spec fn q_max(a: int, b: int) -> int {
    if a >= b {
        a
    } else {
        b
    }
}

/// Smaller of two raw values.
pub open spec fn q_min(a: int, b: int) -> int {
    if a <= b {
        a
    } else {
        b
    }
}

impl Fix {
    /// A `Fix` is well formed when its raw value is within the saturation
    /// bound; every operation returns a well-formed value.
    pub open spec fn wf(self) -> bool {
        -FIX_MAX_RAW <= self.raw <= FIX_MAX_RAW
    }

    /// Zero.
    pub fn zero() -> (r: Fix)
        ensures
            r.raw == 0,
            r.wf(),
    {
        Fix { raw: 0 }
    }

    /// Build a value from a raw Q32.32 representation, clamped into range.
    pub fn from_raw(raw: i128) -> (r: Fix)
        ensures
            r.raw == q_clamp(raw as int, FIX_MAX_RAW as int),
            r.wf(),
    {
        if raw > FIX_MAX_RAW {
            Fix { raw: FIX_MAX_RAW }
        } else if raw < -FIX_MAX_RAW {
            Fix { raw: -FIX_MAX_RAW }
        } else {
            Fix { raw }
        }
    }

    /// The whole number `i`, clamped into range.
    pub fn from_int(i: i64) -> (r: Fix)
        ensures
            r.raw == q_clamp(i * FIX_SCALE, FIX_MAX_RAW as int),
            r.wf(),
    {
        let wide: i128 = (i as i128) * FIX_SCALE;
        Fix::from_raw(wide)
    }

    /// The whole number `n`, clamped into range.
    pub fn from_usize(n: usize) -> (r: Fix)
        ensures
            r.raw == q_clamp(n * FIX_SCALE, FIX_MAX_RAW as int),
            r.wf(),
    {
        // 2^30 is the largest whole number the format carries unclamped.
        if n > 1073741824 {
            assert(n * FIX_SCALE > FIX_MAX_RAW) by (nonlinear_arith)
                requires
                    n > 1073741824,
            ;
            Fix { raw: FIX_MAX_RAW }
        } else {
            Fix::from_int(n as i64)
        }
    }

    /// The rational `num / den`, clamped into range.
    pub fn from_ratio(num: i64, den: i64) -> (r: Fix)
        ensures
            r.raw == q_div(q_clamp(num * FIX_SCALE, FIX_MAX_RAW as int), q_clamp(
                den * FIX_SCALE,
                FIX_MAX_RAW as int,
            )),
            r.wf(),
    {
        Fix::from_int(num).qdiv(Fix::from_int(den))
    }

    /// Saturating addition.
    pub fn qadd(self, o: Fix) -> (r: Fix)
        requires
            self.wf(),
            o.wf(),
        ensures
            r.raw == q_add(self.raw as int, o.raw as int),
            r.wf(),
    {
        Fix::from_raw(self.raw + o.raw)
    }

    /// Saturating subtraction.
    pub fn qsub(self, o: Fix) -> (r: Fix)
        requires
            self.wf(),
            o.wf(),
        ensures
            r.raw == q_sub(self.raw as int, o.raw as int),
            r.wf(),
    {
        Fix::from_raw(self.raw - o.raw)
    }

    /// Negation.
    pub fn qneg(self) -> (r: Fix)
        requires
            self.wf(),
        ensures
            r.raw == -self.raw,
            r.wf(),
    {
        Fix { raw: -self.raw }
    }

    /// Magnitude.
    pub fn qabs(self) -> (r: Fix)
        requires
            self.wf(),
        ensures
            r.raw == q_abs(self.raw as int),
            r.wf(),
    {
        if self.raw < 0 {
            Fix { raw: -self.raw }
        } else {
            self
        }
    }

    /// Larger of two values.
    pub fn qmax(self, o: Fix) -> (r: Fix)
        ensures
            r.raw == q_max(self.raw as int, o.raw as int),
    {
        if self.raw >= o.raw {
            self
        } else {
            o
        }
    }

    /// Smaller of two values.
    pub fn qmin(self, o: Fix) -> (r: Fix)
        ensures
            r.raw == q_min(self.raw as int, o.raw as int),
    {
        if self.raw <= o.raw {
            self
        } else {
            o
        }
    }

    /// Saturating fixed-point multiplication, truncated toward zero.
    pub fn qmul(self, o: Fix) -> (r: Fix)
        requires
            self.wf(),
            o.wf(),
        ensures
            r.raw == q_mul(self.raw as int, o.raw as int),
            r.wf(),
    {
        let neg: bool = (self.raw < 0) != (o.raw < 0);
        let ma: u128 = abs_to_u128(self.raw);
        let mb: u128 = abs_to_u128(o.raw);
        assert(ma * mb <= 0x10000000000000000000000000000000u128) by (nonlinear_arith)
            requires
                ma <= 0x4000000000000000u128,
                mb <= 0x4000000000000000u128,
        ;
        let p: u128 = ma * mb;
        let q: u128 = p / (FIX_SCALE as u128);
        let mag: u128 = if q > (FIX_MUL_MAX_RAW as u128) {
            FIX_MUL_MAX_RAW as u128
        } else {
            q
        };
        let r: Fix = if neg {
            Fix { raw: -(mag as i128) }
        } else {
            Fix { raw: mag as i128 }
        };
        proof {
            let a = self.raw as int;
            let b = o.raw as int;
            lemma_mul_abs(a, b);
            lemma_mul_sign(a, b);
            assert(p == q_abs(a * b));
            assert(q == q_abs(a * b) / (FIX_SCALE as int));
            if a * b >= 0 {
                assert(q_tdiv(a * b, FIX_SCALE as int) == q as int);
                if neg {
                    assert(a * b == 0);
                    assert(q_abs(a * b) == 0);
                    assert(q == 0) by {
                        vstd::arithmetic::div_mod::lemma_div_of0(FIX_SCALE as int);
                    }
                }
            } else {
                assert(neg);
                assert(q_tdiv(a * b, FIX_SCALE as int) == -(q as int));
            }
        }
        r
    }

    /// Saturating fixed-point division, truncated toward zero; zero when the
    /// divisor is zero.
    pub fn qdiv(self, o: Fix) -> (r: Fix)
        requires
            self.wf(),
            o.wf(),
        ensures
            r.raw == q_div(self.raw as int, o.raw as int),
            r.wf(),
    {
        if o.raw == 0 {
            return Fix { raw: 0 };
        }
        let neg: bool = (self.raw < 0) != (o.raw < 0);
        let ma: u128 = abs_to_u128(self.raw);
        let mb: u128 = abs_to_u128(o.raw);
        assert(ma * 4294967296u128 <= 19807040628566084398385987584u128) by (nonlinear_arith)
            requires
                ma <= 0x4000000000000000u128,
        ;
        let num: u128 = ma * (FIX_SCALE as u128);
        let q: u128 = num / mb;
        let mag: u128 = if q > (FIX_MUL_MAX_RAW as u128) {
            FIX_MUL_MAX_RAW as u128
        } else {
            q
        };
        let r: Fix = if neg {
            Fix { raw: -(mag as i128) }
        } else {
            Fix { raw: mag as i128 }
        };
        proof {
            let a = self.raw as int;
            let b = o.raw as int;
            let x = a * (FIX_SCALE as int);
            lemma_mul_abs(a, FIX_SCALE as int);
            lemma_mul_sign(a, FIX_SCALE as int);
            assert(num == q_abs(x));
            assert(q == q_abs(x) / q_abs(b));
            assert((x < 0) == (a < 0));
            assert(neg == ((x < 0) != (b < 0)));
            assert(q_tdiv_signed(x, b) == if neg {
                -(q as int)
            } else {
                q as int
            });
        }
        r
    }
}

/// The sequence of raw Q32.32 values under a fixed-point vector.
pub open spec fn raws(s: Seq<Fix>) -> Seq<int> {
    s.map_values(|x: Fix| x.raw as int)
}

/// Every raw value is within the saturation bound.
pub open spec fn all_wf(s: Seq<int>) -> bool {
    forall|i: int| 0 <= i < s.len() ==> -FIX_MAX_RAW <= #[trigger] s[i] <= FIX_MAX_RAW
}

/// Indexing the raw view reads the element's raw field.
pub broadcast proof fn lemma_raws_index(s: Seq<Fix>, i: int)
    requires
        0 <= i < s.len(),
    ensures
        #[trigger] raws(s)[i] == s[i].raw as int,
{
}

/// An element of a vector whose raw view is within bounds is well formed.
pub broadcast proof fn lemma_all_wf_index(s: Seq<Fix>, i: int)
    requires
        0 <= i < s.len(),
        all_wf(raws(s)),
    ensures
        (#[trigger] s[i]).wf(),
{
    assert(raws(s)[i] == s[i].raw as int);
}

/// Fixed-point square root over raw values: zero for non-positive arguments.
pub open spec fn q_sqrt(x: int) -> int {
    if x <= 0 {
        0
    } else {
        int_sqrt((x * FIX_SCALE) as nat) as int
    }
}

/// Integer square root: the largest `r` with `r * r <= n`.
pub open spec fn int_sqrt(n: nat) -> nat
    decreases n,
{
    if n == 0 {
        0
    } else {
        let r = 2 * int_sqrt(n / 4);
        if (r + 1) * (r + 1) <= n {
            r + 1
        } else {
            r
        }
    }
}

/// `int_sqrt` is characterized by the two square bounds.
pub proof fn lemma_int_sqrt(n: nat)
    ensures
        int_sqrt(n) * int_sqrt(n) <= n,
        n < (int_sqrt(n) + 1) * (int_sqrt(n) + 1),
    decreases n,
{
    if n == 0 {
        assert(int_sqrt(n) * int_sqrt(n) <= n && n < (int_sqrt(n) + 1) * (int_sqrt(n) + 1))
            by (nonlinear_arith)
            requires
                n == 0,
                int_sqrt(n) == 0,
        ;
    } else {
        let s = int_sqrt(n / 4);
        lemma_int_sqrt(n / 4);
        let r = 2 * s;
        assert(n == 4 * (n / 4) + n % 4 && 0 <= n % 4 < 4) by {
            vstd::arithmetic::div_mod::lemma_fundamental_div_mod(n as int, 4);
        }
        assert(r * r <= n && n < (r + 2) * (r + 2)) by (nonlinear_arith)
            requires
                r == 2 * s,
                s * s <= n / 4,
                n / 4 < (s + 1) * (s + 1),
                n == 4 * (n / 4) + n % 4,
                0 <= n % 4 < 4,
        ;
        if (r + 1) * (r + 1) <= n {
            assert(int_sqrt(n) == r + 1);
            assert(int_sqrt(n) * int_sqrt(n) <= n && n < (int_sqrt(n) + 1) * (int_sqrt(n) + 1))
                by (nonlinear_arith)
                requires
                    int_sqrt(n) == r + 1,
                    (r + 1) * (r + 1) <= n,
                    n < (r + 2) * (r + 2),
            ;
        } else {
            assert(int_sqrt(n) == r);
            assert(int_sqrt(n) * int_sqrt(n) <= n && n < (int_sqrt(n) + 1) * (int_sqrt(n) + 1))
                by (nonlinear_arith)
                requires
                    int_sqrt(n) == r,
                    r * r <= n,
                    !((r + 1) * (r + 1) <= n),
            ;
        }
    }
}

/// Any value between the square bounds is the integer square root.
proof fn lemma_int_sqrt_unique(n: nat, a: nat)
    requires
        a * a <= n,
        n < (a + 1) * (a + 1),
    ensures
        a == int_sqrt(n),
{
    lemma_int_sqrt(n);
    let b = int_sqrt(n);
    assert(a == b) by (nonlinear_arith)
        requires
            a * a <= n,
            n < (a + 1) * (a + 1),
            b * b <= n,
            n < (b + 1) * (b + 1),
    ;
}

/// Integer square root by bisection. The argument is at most 2^94 (a raw
/// value times the scale), so the root is at most 2^47 and the search can
/// start at 2^47 + 1.
fn isqrt_u128(x: u128) -> (r: u128)
    requires
        x <= 19807040628566084398385987584u128,
    ensures
        r == int_sqrt(x as nat),
        r <= 140737488355328u128,
{
    let mut lo: u128 = 0;
    let mut hi: u128 = 140737488355329u128;
    assert(x < hi * hi) by (nonlinear_arith)
        requires
            x <= 19807040628566084398385987584u128,
            hi == 140737488355329u128,
    ;
    while lo + 1 < hi
        invariant
            lo < hi,
            hi <= 140737488355329u128,
            lo * lo <= x,
            x < hi * hi,
        decreases hi - lo,
    {
        let mid: u128 = lo + (hi - lo) / 2;
        assert(lo < mid < hi);
        assert(mid * mid <= 140737488355329u128 * 140737488355329u128) by (nonlinear_arith)
            requires
                mid <= 140737488355329u128,
        ;
        if mid * mid <= x {
            lo = mid;
        } else {
            hi = mid;
        }
    }
    proof {
        assert(hi == lo + 1);
        lemma_int_sqrt_unique(x as nat, lo as nat);
    }
    lo
}

impl Fix {
    /// Square root, truncated to the Q32.32 grid; zero for non-positive
    /// arguments.
    pub fn qsqrt(self) -> (r: Fix)
        requires
            self.wf(),
        ensures
            r.raw == q_sqrt(self.raw as int),
            r.raw >= 0,
            r.wf(),
    {
        if self.raw <= 0 {
            return Fix { raw: 0 };
        }
        assert((self.raw as u128) * (FIX_SCALE as u128) <= 19807040628566084398385987584u128)
            by (nonlinear_arith)
            requires
                self.raw as u128 <= 0x4000000000000000u128,
        ;
        let x: u128 = (self.raw as u128) * (FIX_SCALE as u128);
        let s: u128 = isqrt_u128(x);
        Fix { raw: s as i128 }
    }
}

/// Magnitude of a raw value that is within the saturation bound.
fn abs_to_u128(x: i128) -> (r: u128)
    requires
        -FIX_MAX_RAW <= x <= FIX_MAX_RAW,
    ensures
        r == q_abs(x as int),
{
    if x < 0 {
        (-x) as u128
    } else {
        x as u128
    }
}

/// The magnitude of a product is the product of the magnitudes.
proof fn lemma_mul_abs(a: int, b: int)
    ensures
        q_abs(a * b) == q_abs(a) * q_abs(b),
{
    assert(q_abs(a * b) == q_abs(a) * q_abs(b)) by (nonlinear_arith);
}

/// The sign of a product follows the signs of its factors.
proof fn lemma_mul_sign(a: int, b: int)
    ensures
        (a * b < 0) <==> (((a < 0) != (b < 0)) && a != 0 && b != 0),
        (a * b == 0) <==> (a == 0 || b == 0),
{
    assert((a * b < 0) <==> (((a < 0) != (b < 0)) && a != 0 && b != 0)) by (nonlinear_arith);
    assert((a * b == 0) <==> (a == 0 || b == 0)) by (nonlinear_arith);
}

} // verus!
