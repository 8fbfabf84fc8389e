use vstd::prelude::*;

verus! {

use vstd::arithmetic::div_mod::lemma_fundamental_div_mod;
use vstd::arithmetic::power2::pow2;

/// `d` divides `n`.
pub open spec fn divides(d: int, n: int) -> bool {
    exists|k: int| n == #[trigger] (d * k)
}

/// The greatest common divisor, by Euclid's recursion;
/// `spec_gcd(a, 0) == a`, so `spec_gcd(0, 0) == 0`.
pub open spec fn spec_gcd(a: nat, b: nat) -> nat
    decreases b,
{
    if b == 0 {
        a
    } else {
        spec_gcd(b, a % b)
    }
}

/// The greatest common divisor divides both of its arguments.
pub proof fn lemma_gcd_divides(a: nat, b: nat)
    ensures
        divides(spec_gcd(a, b) as int, a as int),
        divides(spec_gcd(a, b) as int, b as int),
    decreases b,
{
    if b == 0 {
        assert(a as int == (a as int) * 1);
        assert(0int == (a as int) * 0);
    } else {
        lemma_gcd_divides(b, a % b);
        let g = spec_gcd(b, a % b) as int;
        let k1 = choose|k: int| b as int == #[trigger] (g * k);
        let k2 = choose|k: int| (a % b) as int == #[trigger] (g * k);
        lemma_fundamental_div_mod(a as int, b as int);
        assert(a as int == g * (k1 * ((a as int) / (b as int)) + k2)) by (nonlinear_arith)
            requires
                a as int == (b as int) * ((a as int) / (b as int)) + ((a % b) as int),
                b as int == g * k1,
                (a % b) as int == g * k2;
    }
}

/// Every common divisor of the two arguments divides their greatest
/// common divisor.
pub proof fn lemma_gcd_greatest(a: nat, b: nat, c: int)
    requires
        divides(c, a as int),
        divides(c, b as int),
    ensures
        divides(c, spec_gcd(a, b) as int),
    decreases b,
{
    if b == 0 {
    } else {
        let ka = choose|k: int| a as int == #[trigger] (c * k);
        let kb = choose|k: int| b as int == #[trigger] (c * k);
        lemma_fundamental_div_mod(a as int, b as int);
        assert((a % b) as int == c * (ka - kb * ((a as int) / (b as int)))) by (nonlinear_arith)
            requires
                a as int == (b as int) * ((a as int) / (b as int)) + ((a % b) as int),
                a as int == c * ka,
                b as int == c * kb;
        lemma_gcd_greatest(b, a % b, c);
    }
}

/// Two nonnegative numbers that divide each other are equal.
proof fn lemma_divides_antisym(x: nat, y: nat)
    requires
        divides(x as int, y as int),
        divides(y as int, x as int),
    ensures
        x == y,
{
    let k1 = choose|k: int| y as int == #[trigger] ((x as int) * k);
    let k2 = choose|k: int| x as int == #[trigger] ((y as int) * k);
    assert(x == y) by (nonlinear_arith)
        requires
            y as int == (x as int) * k1,
            x as int == (y as int) * k2,
            x >= 0,
            y >= 0;
}

/// The greatest common divisor is the one nonnegative value that divides
/// both arguments and is divided by every common divisor.
pub proof fn lemma_gcd_is(a: nat, b: nat, g: nat)
    requires
        divides(g as int, a as int),
        divides(g as int, b as int),
        forall|c: int| divides(c, a as int) && divides(c, b as int) ==> divides(c, g as int),
    ensures
        spec_gcd(a, b) == g,
{
    lemma_gcd_divides(a, b);
    lemma_gcd_greatest(a, b, g as int);
    lemma_divides_antisym(spec_gcd(a, b), g);
}

/// A positive common divisor never exceeds the greatest common divisor
/// of two numbers that are not both zero.
pub proof fn lemma_gcd_largest(a: nat, b: nat, c: int)
    requires
        a > 0 || b > 0,
        c >= 1,
        divides(c, a as int),
        divides(c, b as int),
    ensures
        c <= spec_gcd(a, b),
{
    lemma_gcd_pos(a, b);
    lemma_gcd_greatest(a, b, c);
    let g = spec_gcd(a, b) as int;
    let k = choose|kk: int| g == #[trigger] (c * kk);
    assert(c <= g) by (nonlinear_arith)
        requires
            g == c * k,
            g >= 1,
            c >= 1;
}

/// The greatest common divisor of two numbers not both zero is positive.
pub proof fn lemma_gcd_pos(a: nat, b: nat)
    requires
        a > 0 || b > 0,
    ensures
        spec_gcd(a, b) >= 1,
    decreases b,
{
    if b == 0 {
    } else {
        lemma_gcd_pos(b, a % b);
    }
}

/// The greatest common divisor is symmetric in its arguments.
pub proof fn lemma_gcd_sym(a: nat, b: nat)
    ensures
        spec_gcd(a, b) == spec_gcd(b, a),
    decreases b,
{
    lemma_gcd_divides(b, a);
    assert forall|c: int| divides(c, a as int) && divides(c, b as int) implies divides(
        c,
        spec_gcd(b, a) as int,
    ) by {
        lemma_gcd_greatest(b, a, c);
    }
    lemma_gcd_is(a, b, spec_gcd(b, a));
}

/// Subtracting the smaller from the larger keeps the greatest common
/// divisor.
pub proof fn lemma_gcd_sub(x: nat, y: nat)
    requires
        x <= y,
    ensures
        spec_gcd(x, y) == spec_gcd(x, (y - x) as nat),
{
    let d = (y - x) as nat;
    lemma_gcd_divides(x, d);
    let g = spec_gcd(x, d);
    let k1 = choose|k: int| x as int == #[trigger] ((g as int) * k);
    let k2 = choose|k: int| d as int == #[trigger] ((g as int) * k);
    assert(y as int == (g as int) * (k1 + k2)) by (nonlinear_arith)
        requires
            y as int == x as int + d as int,
            x as int == (g as int) * k1,
            d as int == (g as int) * k2;
    assert forall|c: int| divides(c, x as int) && divides(c, y as int) implies divides(
        c,
        g as int,
    ) by {
        let m1 = choose|k: int| x as int == #[trigger] (c * k);
        let m2 = choose|k: int| y as int == #[trigger] (c * k);
        assert(d as int == c * (m2 - m1)) by (nonlinear_arith)
            requires
                d as int == y as int - x as int,
                x as int == c * m1,
                y as int == c * m2;
        lemma_gcd_greatest(x, d, c);
    }
    lemma_gcd_is(x, y, g);
}

/// In a product that is odd, both factors are odd.
proof fn lemma_odd_factors(c: int, k: int, x: int)
    requires
        x == c * k,
        x % 2 == 1,
    ensures
        c % 2 == 1,
        k % 2 == 1,
{
    vstd::arithmetic::div_mod::lemma_mul_mod_noop(c, k, 2);
    vstd::arithmetic::div_mod::lemma_mod_bound(c, 2);
    vstd::arithmetic::div_mod::lemma_mod_bound(k, 2);
    vstd::arithmetic::div_mod::lemma_mod_bound((c % 2) * (k % 2), 2);
    if c % 2 == 0 {
        assert((c % 2) * (k % 2) == 0);
        assert(0int % 2 == 0) by {
            vstd::arithmetic::div_mod::lemma_small_mod(0, 2);
        }
        assert(false);
    }
    if k % 2 == 0 {
        assert((c % 2) * (k % 2) == 0);
        assert(0int % 2 == 0) by {
            vstd::arithmetic::div_mod::lemma_small_mod(0, 2);
        }
        assert(false);
    }
}

/// An odd factor of a doubled value divides the undoubled value.
proof fn lemma_odd_divides_double(c: int, m: nat)
    requires
        c % 2 == 1,
        divides(c, 2 * m as int),
    ensures
        divides(c, m as int),
{
    let k = choose|kk: int| 2 * m as int == #[trigger] (c * kk);
    vstd::arithmetic::div_mod::lemma_mul_mod_noop(c, k, 2);
    vstd::arithmetic::div_mod::lemma_mod_bound(k, 2);
    assert((2 * m as int) % 2 == 0) by {
        vstd::arithmetic::div_mod::lemma_mod_multiples_basic(m as int, 2);
        assert(2 * m as int == (m as int) * 2);
    }
    if k % 2 == 1 {
        assert((c % 2) * (k % 2) == 1);
        vstd::arithmetic::div_mod::lemma_small_mod(1, 2);
        assert(false);
    }
    vstd::arithmetic::div_mod::lemma_fundamental_div_mod(k, 2);
    let v = k / 2;
    assert(m as int == c * v) by (nonlinear_arith)
        requires
            2 * m as int == c * k,
            k == 2 * v;
}

/// Halving the even side against an odd side keeps the greatest common
/// divisor.
pub proof fn lemma_gcd_odd_half(x: nat, m: nat)
    requires
        x % 2 == 1,
    ensures
        spec_gcd(x, 2 * m) == spec_gcd(x, m),
{
    lemma_gcd_divides(x, m);
    let g = spec_gcd(x, m);
    let k2 = choose|k: int| m as int == #[trigger] ((g as int) * k);
    assert(2 * m as int == (g as int) * (2 * k2)) by (nonlinear_arith)
        requires
            m as int == (g as int) * k2;
    assert forall|c: int| divides(c, x as int) && divides(c, 2 * m as int) implies divides(
        c,
        g as int,
    ) by {
        let kx = choose|k: int| x as int == #[trigger] (c * k);
        lemma_odd_factors(c, kx, x as int);
        lemma_odd_divides_double(c, m);
        lemma_gcd_greatest(x, m, c);
    }
    lemma_gcd_is(x, 2 * m, g);
}

/// Doubling both sides doubles the greatest common divisor.
pub proof fn lemma_gcd_double(a: nat, b: nat)
    ensures
        spec_gcd(2 * a, 2 * b) == 2 * spec_gcd(a, b),
{
    let g = spec_gcd(a, b);
    let gp = spec_gcd(2 * a, 2 * b);
    lemma_gcd_divides(a, b);
    let k1 = choose|k: int| a as int == #[trigger] ((g as int) * k);
    let k2 = choose|k: int| b as int == #[trigger] ((g as int) * k);
    assert(2 * a as int == (2 * g as int) * k1 && 2 * b as int == (2 * g as int) * k2)
        by (nonlinear_arith)
        requires
            a as int == (g as int) * k1,
            b as int == (g as int) * k2;
    lemma_gcd_greatest(2 * a, 2 * b, 2 * g as int);
    assert(2 * a as int == 2int * (a as int));
    assert(2 * b as int == 2int * (b as int));
    lemma_gcd_greatest(2 * a, 2 * b, 2int);
    let h = choose|k: int| gp as int == #[trigger] (2int * k);
    assert(h >= 0);
    lemma_gcd_divides(2 * a, 2 * b);
    let m1 = choose|k: int| 2 * a as int == #[trigger] ((gp as int) * k);
    let m2 = choose|k: int| 2 * b as int == #[trigger] ((gp as int) * k);
    assert(a as int == h * m1 && b as int == h * m2) by (nonlinear_arith)
        requires
            2 * a as int == (gp as int) * m1,
            2 * b as int == (gp as int) * m2,
            gp as int == 2 * h;
    assert(divides(h, a as int) && divides(h, b as int));
    lemma_gcd_greatest(a, b, h);
    let t = choose|k: int| g as int == #[trigger] (h * k);
    assert(2 * g as int == (gp as int) * t) by (nonlinear_arith)
        requires
            g as int == h * t,
            gp as int == 2 * h;
    lemma_divides_antisym(gp, (2 * g) as nat);
}

/// A divisor of a positive number never exceeds it.
pub proof fn lemma_divides_le(g: nat, a: nat)
    requires
        divides(g as int, a as int),
        a >= 1,
    ensures
        g <= a,
{
    let k = choose|kk: int| a as int == #[trigger] ((g as int) * kk);
    if k <= 0 {
        assert((g as int) * k <= 0) by (nonlinear_arith)
            requires
                g >= 0,
                k <= 0;
    }
    assert(a >= g) by (nonlinear_arith)
        requires
            a as int == (g as int) * k,
            g >= 0,
            k >= 1;
}

/// Doubling both sides `n` times scales the greatest common divisor by
/// two to the `n`.
proof fn lemma_gcd_double_n(a: nat, b: nat, n: nat)
    ensures
        spec_gcd(a * pow2(n), b * pow2(n)) == pow2(n) * spec_gcd(a, b),
    decreases n,
{
    vstd::arithmetic::power2::lemma2_to64();
    if n == 0 {
        assert(a * pow2(0) == a);
        assert(b * pow2(0) == b);
    } else {
        lemma_gcd_double_n(a, b, (n - 1) as nat);
        vstd::arithmetic::power2::lemma_pow2_adds(1, (n - 1) as nat);
        let ap = a * pow2((n - 1) as nat);
        let bp = b * pow2((n - 1) as nat);
        lemma_gcd_double(ap, bp);
        assert(a * pow2(n) == 2 * ap && b * pow2(n) == 2 * bp && pow2(n) * spec_gcd(a, b) == 2 * (
        pow2((n - 1) as nat) * spec_gcd(a, b))) by (nonlinear_arith)
            requires
                pow2(n) == 2 * pow2((n - 1) as nat),
                ap == a * pow2((n - 1) as nat),
                bp == b * pow2((n - 1) as nat);
    }
}

/// Shifting the even side up by powers of two against an odd side keeps
/// the greatest common divisor.
proof fn lemma_gcd_odd_shift(x: nat, y: nat, t: nat)
    requires
        x % 2 == 1,
    ensures
        spec_gcd(x, y * pow2(t)) == spec_gcd(x, y),
    decreases t,
{
    vstd::arithmetic::power2::lemma2_to64();
    if t == 0 {
        assert(y * pow2(0) == y);
    } else {
        lemma_gcd_odd_shift(x, y, (t - 1) as nat);
        vstd::arithmetic::power2::lemma_pow2_adds(1, (t - 1) as nat);
        let yp = y * pow2((t - 1) as nat);
        lemma_gcd_odd_half(x, yp);
        assert(y * pow2(t) == 2 * yp) by (nonlinear_arith)
            requires
                pow2(t) == 2 * pow2((t - 1) as nat),
                yp == y * pow2((t - 1) as nat);
    }
}

/// What the greatest common divisor promises: it divides both numbers;
/// it is the largest positive value to do so when the numbers are not
/// both zero; and against zero it is the other number itself.
pub proof fn lemma_gcd_correct(a: nat, b: nat)
    ensures
        divides(spec_gcd(a, b) as int, a as int),
        divides(spec_gcd(a, b) as int, b as int),
        spec_gcd(a, 0) == a,
        a > 0 || b > 0 ==> forall|c: int|
            c >= 1 && divides(c, a as int) && divides(c, b as int) ==> c <= spec_gcd(a, b),
{
    lemma_gcd_divides(a, b);
    if a > 0 || b > 0 {
        assert forall|c: int|
            c >= 1 && divides(c, a as int) && divides(c, b as int) implies c <= spec_gcd(
            a,
            b,
        ) by {
            lemma_gcd_largest(a, b, c);
        }
    }
}

/// Splits a positive number into its odd part and its power of two.
fn strip_twos(v: u64) -> (r: (u64, u32))
    requires
        v >= 1,
    ensures
        r.0 >= 1,
        r.0 % 2 == 1,
        v as nat == (r.0 as nat) * pow2(r.1 as nat),
        r.0 <= v,
{
    let mut x = v;
    let mut i: u32 = 0;
    proof {
        vstd::arithmetic::power2::lemma2_to64();
        assert((x as nat) * pow2(0) == x as nat);
    }
    while x % 2 == 0
        invariant
            1 <= x <= v,
            i <= 64,
            v as nat == (x as nat) * pow2(i as nat),
        decreases x,
    {
        proof {
            vstd::arithmetic::power2::lemma_pow2_adds(1, i as nat);
            vstd::arithmetic::power2::lemma2_to64();
            vstd::arithmetic::power2::lemma_pow2_pos(i as nat);
            assert((x as nat) == 2 * ((x / 2) as nat));
            assert(((x / 2) as nat) * pow2((i + 1) as nat) == (x as nat) * pow2(i as nat))
                by (nonlinear_arith)
                requires
                    pow2((i + 1) as nat) == 2 * pow2(i as nat),
                    (x as nat) == 2 * ((x / 2) as nat);
            if i >= 64 {
                assert(pow2(64) > u64::MAX);
                assert((x as nat) * pow2(i as nat) >= pow2(i as nat)) by (nonlinear_arith)
                    requires
                        x >= 1,
                        pow2(i as nat) >= 0;
                vstd::arithmetic::power2::lemma_pow2_strictly_increases(64, i as nat);
            }
            assert(i < 64);
        }
        x = x / 2;
        i = i + 1;
    }
    (x, i)
}

/// Multiplies by a power of two.
fn mul_pow2(v: u64, k: u32) -> (r: u64)
    requires
        (v as nat) * pow2(k as nat) <= u64::MAX,
    ensures
        r as nat == (v as nat) * pow2(k as nat),
{
    let mut r = v;
    let mut t: u32 = 0;
    proof {
        vstd::arithmetic::power2::lemma2_to64();
        assert((v as nat) * pow2(0) == v as nat);
    }
    while t < k
        invariant
            t <= k,
            r as nat == (v as nat) * pow2(t as nat),
            (v as nat) * pow2(k as nat) <= u64::MAX,
        decreases k - t,
    {
        proof {
            vstd::arithmetic::power2::lemma_pow2_adds(1, t as nat);
            vstd::arithmetic::power2::lemma2_to64();
            assert((v as nat) * pow2((t + 1) as nat) == 2 * (r as nat)) by (nonlinear_arith)
                requires
                    pow2((t + 1) as nat) == 2 * pow2(t as nat),
                    r as nat == (v as nat) * pow2(t as nat);
            if t + 1 < k {
                vstd::arithmetic::power2::lemma_pow2_strictly_increases((t + 1) as nat, k as nat);
            }
            assert((v as nat) * pow2((t + 1) as nat) <= (v as nat) * pow2(k as nat))
                by (nonlinear_arith)
                requires
                    pow2((t + 1) as nat) <= pow2(k as nat),
                    v >= 0;
        }
        r = r * 2;
        t = t + 1;
    }
    r
}

/// The greatest common divisor of two unsigned numbers, by the binary
/// method: both numbers are stripped to their odd parts (remembering the
/// shared power of two), the smaller odd part is repeatedly subtracted
/// from the larger with fresh factors of two stripped from each
/// difference, and the survivor is scaled back up by the shared power.
pub fn gcd(a: u64, b: u64) -> (r: u64)
    ensures
        r as nat == spec_gcd(a as nat, b as nat),
{
    if a == 0 {
        proof {
            if b != 0 {
                vstd::arithmetic::div_mod::lemma_small_mod(0, b as nat);
                assert(spec_gcd(0, b as nat) == spec_gcd(b as nat, 0nat % (b as nat)));
                assert(spec_gcd(b as nat, 0) == b as nat);
            }
        }
        return b;
    }
    if b == 0 {
        return a;
    }
    let (x0, i) = strip_twos(a);
    let (y0, j) = strip_twos(b);
    let k = if i < j {
        i
    } else {
        j
    };
    let mut x = x0;
    let mut y = y0;
    proof {
        // Pull the shared power of two out, then drop the leftover
        // factors of two against the odd other side.
        vstd::arithmetic::power2::lemma_pow2_adds((i - k) as nat, k as nat);
        vstd::arithmetic::power2::lemma_pow2_adds((j - k) as nat, k as nat);
        let xs = (x0 as nat) * pow2((i - k) as nat);
        let ys = (y0 as nat) * pow2((j - k) as nat);
        assert(a as nat == xs * pow2(k as nat) && b as nat == ys * pow2(k as nat))
            by (nonlinear_arith)
            requires
                a as nat == (x0 as nat) * pow2(i as nat),
                b as nat == (y0 as nat) * pow2(j as nat),
                pow2(i as nat) == pow2((i - k) as nat) * pow2(k as nat),
                pow2(j as nat) == pow2((j - k) as nat) * pow2(k as nat),
                xs == (x0 as nat) * pow2((i - k) as nat),
                ys == (y0 as nat) * pow2((j - k) as nat);
        lemma_gcd_double_n(xs, ys, k as nat);
        vstd::arithmetic::power2::lemma2_to64();
        if i <= j {
            assert(xs == (x0 as nat) * pow2(0));
            assert(xs == x0 as nat) by (nonlinear_arith)
                requires
                    xs == (x0 as nat) * pow2(0),
                    pow2(0) == 1;
            lemma_gcd_odd_shift(x0 as nat, y0 as nat, (j - k) as nat);
        } else {
            assert(ys == (y0 as nat) * pow2(0));
            assert(ys == y0 as nat) by (nonlinear_arith)
                requires
                    ys == (y0 as nat) * pow2(0),
                    pow2(0) == 1;
            lemma_gcd_sym(xs, ys);
            lemma_gcd_odd_shift(y0 as nat, x0 as nat, (i - k) as nat);
            lemma_gcd_sym(y0 as nat, x0 as nat);
        }
        assert(spec_gcd(a as nat, b as nat) == pow2(k as nat) * spec_gcd(x0 as nat, y0 as nat));
    }
    loop
        invariant
            1 <= a,
            1 <= x,
            1 <= y,
            x % 2 == 1,
            y % 2 == 1,
            spec_gcd(a as nat, b as nat) == pow2(k as nat) * spec_gcd(x as nat, y as nat),
        decreases x + y,
    {
        if x > y {
            proof {
                lemma_gcd_sym(x as nat, y as nat);
            }
            let tmp = x;
            x = y;
            y = tmp;
        }
        proof {
            lemma_gcd_sub(x as nat, y as nat);
        }
        y = y - x;

        if y == 0 {
            proof {
                assert(spec_gcd(x as nat, 0) == x as nat);
                lemma_gcd_divides(a as nat, b as nat);
                lemma_divides_le(spec_gcd(a as nat, b as nat), a as nat);
                assert((x as nat) * pow2(k as nat) == pow2(k as nat) * (x as nat))
                    by (nonlinear_arith);
                assert((x as nat) * pow2(k as nat) <= u64::MAX);
            }
            return mul_pow2(x, k);
        }
        let ghost ysub = y;
        while y % 2 == 0
            invariant
                1 <= y <= ysub,
                x % 2 == 1,
                spec_gcd(a as nat, b as nat) == pow2(k as nat) * spec_gcd(x as nat, y as nat),
            decreases y,
        {
            proof {
                lemma_gcd_odd_half(x as nat, (y / 2) as nat);
                assert(y as nat == 2 * ((y / 2) as nat));
            }
            y = y / 2;
        }
    }
}

/// The absolute value, as a mathematical number.
pub open spec fn abs_n(x: i64) -> nat {
    if x >= 0 {
        x as nat
    } else {
        (-(x as int)) as nat
    }
}

/// The greatest common divisor of the magnitudes of two signed numbers,
/// as a signed number. The result must be representable: it is not, only
/// when it would be two to the sixty-third power.
pub fn signed_gcd(a: i64, b: i64) -> (r: i64)
    requires
        spec_gcd(abs_n(a), abs_n(b)) <= i64::MAX,
    ensures
        r as nat == spec_gcd(abs_n(a), abs_n(b)),
        r >= 0,
{
    let au: u64 = if a >= 0 {
        a as u64
    } else {
        (-(a as i128)) as u64
    };
    let bu: u64 = if b >= 0 {
        b as u64
    } else {
        (-(b as i128)) as u64
    };
    gcd(au, bu) as i64
}

} // verus!
