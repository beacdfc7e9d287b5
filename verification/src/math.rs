//! Modular exponentiation built on Barrett reduction.
use vstd::arithmetic::div_mod::{
    lemma_fundamental_div_mod, lemma_fundamental_div_mod_converse, lemma_mul_mod_noop_general,
    lemma_small_mod,
};
use vstd::arithmetic::mul::lemma_mul_is_associative;
use vstd::arithmetic::power::{
    lemma_pow0, lemma_pow1, lemma_pow_adds, lemma_pow_mod_noop, lemma_pow_multiplies,
    lemma_square_is_pow2, pow,
};
use vstd::prelude::*;

verus! {

/// Computes `x` to the power `n` modulo `m`, as a value in `[0, m)`.
///
/// The result is that of exact integer exponentiation followed by one
/// Euclidean reduction, so a negative base gives a non-negative residue.
pub fn pow_mod(x: i64, n: u64, m: u32) -> (r: u32)
    requires
        1 <= m < 0x8000_0000,
    ensures
        r == pow(x as int, n as nat) % (m as int),
        r < m,
{
    if m == 1 {
        return 0;
    }
    let bt = Barrett::new(m);
    let mut r: u32 = 1;
    let mut y: u32 = x.checked_rem_euclid(m as i64).unwrap() as u32;
    let mut e: u64 = n;
    proof {
        lemma_pow_mod_noop(x as int, n as nat, m as int);
        lemma_mul_mod_noop_general(1, pow(y as int, n as nat), m as int);
    }
    while e > 0
        invariant
            bt.wf(),
            bt.modulus() == m,
            2 <= m,
            r < m,
            y < m,
            (r * pow(y as int, e as nat)) % (m as int) == pow(x as int, n as nat) % (m as int),
        decreases e,
    {
        proof {
            lemma_square_and_multiply(r as int, y as int, e as nat, m as int);
        }
        assert(e & 1 == e % 2) by (bit_vector);
        assert(e >> 1 == e / 2) by (bit_vector);
        if e & 1 == 1 {
            r = bt.mul(r, y);
        }
        y = bt.mul(y, y);
        e = e >> 1;
    }
    proof {
        lemma_pow0(y as int);
        lemma_small_mod(r as nat, m as nat);
    }
    r
}

/// One round of square-and-multiply keeps `r * y^e` unchanged modulo `m`:
/// `y` is squared, `e` is halved, and `r` takes up a factor `y` when `e` is odd.
proof fn lemma_square_and_multiply(r: int, y: int, e: nat, m: int)
    requires
        0 < m,
        0 < e,
    ensures
        e % 2 == 1 ==> (((r * y) % m) * pow((y * y) % m, e / 2)) % m == (r * pow(y, e)) % m,
        e % 2 == 0 ==> (r * pow((y * y) % m, e / 2)) % m == (r * pow(y, e)) % m,
{
    let k = e / 2;
    let squares = pow(y * y, k);
    let reduced = pow((y * y) % m, k);
    assert(reduced % m == squares % m) by {
        lemma_pow_mod_noop(y * y, k, m);
    }
    assert(squares == pow(y, 2 * k)) by {
        lemma_square_is_pow2(y);
        lemma_pow_multiplies(y, 2, k);
    }
    if e % 2 == 0 {
        assert(2 * k == e);
        lemma_mul_mod_noop_general(r, reduced, m);
        lemma_mul_mod_noop_general(r, squares, m);
    } else {
        assert(e == 1 + 2 * k);
        assert(pow(y, e) == y * squares) by {
            lemma_pow1(y);
            lemma_pow_adds(y, 1, 2 * k);
        }
        lemma_mul_mod_noop_general(r * y, reduced, m);
        lemma_mul_mod_noop_general(r * y, squares, m);
        lemma_mul_is_associative(r, y, squares);
    }
}

/// The scaled reciprocal that a Barrett context keeps for the modulus `m`:
/// `floor(2^64 / m) + 1`, held in 64 bits.
pub open spec fn reciprocal_of(m: int) -> int {
    (0x1_0000_0000_0000_0000int / m + 1) % 0x1_0000_0000_0000_0000int
}

/// A precomputed context for multiplication modulo a fixed `modulus`.
pub struct Barrett {
    m: u32,
    im: u64,
}

impl Barrett {
    /// The modulus this context reduces by.
    pub closed spec fn modulus(&self) -> int {
        self.m as int
    }

    /// The scaled reciprocal of the modulus.
    pub closed spec fn reciprocal(&self) -> int {
        self.im as int
    }

    /// A context is well formed when its modulus lies in `[1, 2^31)` and its
    /// reciprocal is the one that belongs to that modulus.
    pub open spec fn wf(&self) -> bool {
        &&& 1 <= self.modulus() < 0x8000_0000
        &&& self.reciprocal() == reciprocal_of(self.modulus())
    }

    /// Builds the context for the modulus `m`.
    pub fn new(m: u32) -> (bt: Self)
        requires
            1 <= m < 0x8000_0000,
        ensures
            bt.wf(),
            bt.modulus() == m,
    {
        let wide: u128 = 0x1_0000_0000_0000_0000u128 / (m as u128) + 1;
        assert(wide as u64 == wide % 0x1_0000_0000_0000_0000u128) by (bit_vector);
        let im: u64 = #[verifier::truncate]
        (wide as u64);
        Barrett { m, im }
    }

    /// Multiplies `a` by `b` modulo the context's modulus.
    ///
    /// The operands are meant to be residues, `a, b < modulus`. For a modulus
    /// of at least 2 the product is reduced correctly for any operands.
    pub fn mul(&self, a: u32, b: u32) -> (c: u32)
        requires
            self.wf(),
            self.modulus() >= 2 || (a < self.modulus() && b < self.modulus()),
        ensures
            c == (a * b) % self.modulus(),
    {
        let m = self.m;
        let im = self.im;
        assert(a * b <= 0xFFFF_FFFF * 0xFFFF_FFFF) by (nonlinear_arith)
            requires
                a <= 0xFFFF_FFFF,
                b <= 0xFFFF_FFFF,
        ;
        let z: u64 = a as u64 * b as u64;
        assert(z * im <= 0xFFFF_FFFF_FFFF_FFFF * 0xFFFF_FFFF_FFFF_FFFF) by (nonlinear_arith)
            requires
                z <= 0xFFFF_FFFF_FFFF_FFFF,
                im <= 0xFFFF_FFFF_FFFF_FFFF,
        ;
        let t: u128 = z as u128 * im as u128;
        assert(t >> 64 == t / 0x1_0000_0000_0000_0000u128) by (bit_vector);
        let x: u64 = (t >> 64) as u64;
        proof {
            if m >= 2 {
                lemma_quotient_estimate(z as int, m as int);
                lemma_fundamental_div_mod(z as int, m as int);
                assert(x * m <= z + m) by (nonlinear_arith)
                    requires
                        x <= z as int / m as int + 1,
                        z == m * (z as int / m as int) + z as int % m as int,
                        0 <= z as int % m as int,
                        m > 0,
                ;
                assert(x * m >= z - z as int % m as int) by (nonlinear_arith)
                    requires
                        x >= z as int / m as int,
                        z == m * (z as int / m as int) + z as int % m as int,
                        m > 0,
                ;
            } else {
                assert(z * im == 0) by (nonlinear_arith)
                    requires
                        z == 0,
                ;
                assert(x * m == 0) by (nonlinear_arith)
                    requires
                        x == 0,
                ;
            }
        }
        let y: u64 = x * m as u64;
        let w: u64 = z.wrapping_sub(y);
        assert(w as u32 == w % 0x1_0000_0000u64) by (bit_vector);
        let v: u32 = #[verifier::truncate]
        (w as u32);
        proof {
            if m >= 2 {
                lemma_remainder_cases(z as int, m as int, x as int);
            }
        }
        if v < m {
            v
        } else {
            v.wrapping_add(m)
        }
    }
}

/// Reducing the factors before a multiplication does not change its result:
/// for any `a` and `b`, the residues `a % m` and `b % m` are operands that
/// [`Barrett::mul`] accepts, and the product it returns for them is
/// `(a * b) % m`.
pub proof fn lemma_mul_of_residues(bt: Barrett, a: u32, b: u32)
    requires
        bt.wf(),
    ensures
        0 <= a as int % bt.modulus() < bt.modulus(),
        0 <= b as int % bt.modulus() < bt.modulus(),
        ((a as int % bt.modulus()) * (b as int % bt.modulus())) % bt.modulus() == (a * b)
            % bt.modulus(),
{
    lemma_mul_mod_noop_general(a as int, b as int, bt.modulus());
}

/// The quotient estimated through the reciprocal, `floor(z * reciprocal / 2^64)`,
/// is the true quotient `floor(z / m)` or one above it.
proof fn lemma_quotient_estimate(z: int, m: int)
    requires
        2 <= m < 0x8000_0000,
        0 <= z < 0x1_0000_0000_0000_0000,
    ensures
        reciprocal_of(m) == 0x1_0000_0000_0000_0000int / m + 1,
        z / m <= (z * reciprocal_of(m)) / 0x1_0000_0000_0000_0000 <= z / m + 1,
{
    let big = 0x1_0000_0000_0000_0000int;
    let c = big / m;
    let e = big % m;
    let im = c + 1;
    lemma_fundamental_div_mod(big, m);
    assert(0x2_0000_0000 <= c <= big / 2) by (nonlinear_arith)
        requires
            big == m * c + e,
            0 <= e < m,
            2 <= m < 0x8000_0000,
            big == 0x1_0000_0000_0000_0000int,
    ;
    assert(reciprocal_of(m) == im);
    let q = z / m;
    let s = z % m;
    lemma_fundamental_div_mod(z, m);
    let w = q * (m - e) + s * im;
    assert(z * im == q * big + w) by (nonlinear_arith)
        requires
            z == m * q + s,
            big == m * c + e,
            im == c + 1,
            w == q * (m - e) + s * im,
    ;
    assert(0 <= w < 2 * big) by (nonlinear_arith)
        requires
            w == q * (m - e) + s * im,
            z == m * q + s,
            big == m * c + e,
            im == c + 1,
            0 <= e < m,
            0 <= s < m,
            0 <= z < big,
            m < 0x8000_0000,
            0x2_0000_0000 <= c,
    ;
    if w < big {
        lemma_fundamental_div_mod_converse(z * im, big, q, w);
    } else {
        lemma_fundamental_div_mod_converse(z * im, big, q + 1, w - big);
    }
}

/// With an estimate `x` of `floor(z / m)` that is exact or one too large, the
/// difference `z - x * m` is the remainder, or the remainder less `m`.
proof fn lemma_remainder_cases(z: int, m: int, x: int)
    requires
        2 <= m < 0x8000_0000,
        0 <= z < 0x1_0000_0000_0000_0000,
        z / m <= x <= z / m + 1,
    ensures
        x == z / m ==> z - x * m == z % m,
        x == z / m + 1 ==> z - x * m == z % m - m,
{
    lemma_fundamental_div_mod(z, m);
    assert(x == z / m ==> x * m == m * (z / m)) by (nonlinear_arith);
    assert(x == z / m + 1 ==> x * m == m * (z / m) + m) by (nonlinear_arith);
}

} // verus!
