use vstd::arithmetic::div_mod::{
    lemma_div_is_ordered, lemma_fundamental_div_mod, lemma_fundamental_div_mod_converse,
};
use vstd::arithmetic::mul::lemma_mul_inequality;
use vstd::prelude::*;

verus! {

/// `floor(amount * numerator / denominator)` over unbounded integers.
pub open spec fn pro_rata_spec(amount: int, numerator: int, denominator: int) -> int {
    amount * numerator / denominator
}

/// The leading `128 - k` bits of `a`, as a number.
spec fn high_bits(a: u128, k: u32) -> int {
    if k >= 128 {
        0
    } else {
        (a >> k) as int
    }
}

proof fn lemma_high_bits_step(a: u128, k: u32)
    requires
        1 <= k <= 128,
    ensures
        (a >> ((k - 1) as u32)) as int == 2 * high_bits(a, k) + ((a >> ((k - 1) as u32)) & 1) as int,
        ((a >> ((k - 1) as u32)) & 1) <= 1,
        (a >> ((k - 1) as u32)) <= a,
{
    let kk: u32 = (k - 1) as u32;
    assert(((a >> kk) & 1) <= 1) by (bit_vector);
    assert((a >> kk) <= a) by (bit_vector);
    if k == 128 {
        assert(kk == 127);
        assert((a >> 127u32) == ((a >> 127u32) & 1)) by (bit_vector);
    } else {
        assert((a >> kk) == (a >> ((kk + 1) as u32)) * 2 + ((a >> kk) & 1)) by (bit_vector)
            requires kk < 127;
    }
}

proof fn lemma_scaled_prefix_ordered(p: int, a: int, b: int, c: int)
    requires
        0 <= p <= a,
        0 <= b,
        0 < c,
    ensures
        p * b / c <= a * b / c,
{
    lemma_mul_inequality(p, a, b);
    lemma_div_is_ordered(p * b, a * b, c);
}

/// Computes `floor(amount * numerator / denominator)` exactly: the product is
/// never formed in 128 bits, so only a quotient that does not fit in `u128`
/// is refused (`None`). Rounding is always down.
pub fn pro_rata(amount: u128, numerator: u128, denominator: u128) -> (r: Option<u128>)
    requires
        denominator > 0,
    ensures
        r.is_some() <==> pro_rata_spec(amount as int, numerator as int, denominator as int) <= u128::MAX,
        r.is_some() ==> r.unwrap() as int == pro_rata_spec(amount as int, numerator as int, denominator as int),
{
    let a = amount;
    let b = numerator;
    let c = denominator;
    let bq: u128 = b / c;
    let br: u128 = b % c;
    proof {
        lemma_fundamental_div_mod(b as int, c as int);
        assert(b as int == bq as int * c as int + br as int) by (nonlinear_arith)
            requires bq as int == b as int / c as int, br as int == b as int % c as int,
                b as int == c as int * (b as int / c as int) + (b as int % c as int);
    }
    // (q, r) is the quotient and remainder of high_bits(a, k) * b by c.
    let mut q: u128 = 0;
    let mut r: u128 = 0;
    let mut k: u32 = 128;
    while k > 0
        invariant
            a == amount,
            b == numerator,
            c == denominator,
            k <= 128,
            c > 0,
            b as int == bq as int * c as int + br as int,
            br < c,
            r < c,
            q as int * c as int + r as int == high_bits(a, k) * b as int,
        decreases k,
    {
        let kk: u32 = k - 1;
        let bit: u128 = (a >> kk) & 1;
        proof {
            lemma_high_bits_step(a, k);
        }
        let ghost high = high_bits(a, k);
        let ghost next_high = (a >> kk) as int;
        // 2 * r == carry1 * c + r2
        let r2: u128;
        let carry1: u128;
        if r >= c - r {
            r2 = r - (c - r);
            carry1 = 1;
        } else {
            r2 = r + r;
            carry1 = 0;
        }
        // r2 + bit * br == carry2 * c + r3
        let r3: u128;
        let carry2: u128;
        if bit == 1 && r2 >= c - br {
            r3 = r2 - (c - br);
            carry2 = 1;
        } else if bit == 1 {
            r3 = r2 + br;
            carry2 = 0;
        } else {
            r3 = r2;
            carry2 = 0;
        }
        let ghost qn: int = 2 * q as int + bit as int * bq as int + carry1 as int + carry2 as int;
        proof {
            assert(next_high == 2 * high + bit as int);
            assert(qn * c as int + r3 as int == next_high * b as int) by (nonlinear_arith)
                requires
                    next_high == 2 * high + bit as int,
                    bit == 0 || bit == 1,
                    q as int * c as int + r as int == high * b as int,
                    b as int == bq as int * c as int + br as int,
                    2 * r as int == carry1 as int * c as int + r2 as int,
                    r2 as int + bit as int * br as int == carry2 as int * c as int + r3 as int,
                    qn == 2 * q as int + bit as int * bq as int + carry1 as int + carry2 as int;
            lemma_fundamental_div_mod_converse(next_high * b as int, c as int, qn, r3 as int);
            lemma_scaled_prefix_ordered(next_high, a as int, b as int, c as int);
        }
        let step = if bit == 1 { bq } else { 0 };
        assert(step as int == bit as int * bq as int) by (nonlinear_arith)
            requires step == (if bit == 1 { bq } else { 0u128 }), bit == 0 || bit == 1;
        let next = match q.checked_mul(2) {
            Some(d) => match d.checked_add(step) {
                Some(e) => match e.checked_add(carry1) {
                    Some(f) => f.checked_add(carry2),
                    None => None,
                },
                None => None,
            },
            None => None,
        };
        match next {
            Some(n) => {
                assert(n as int == qn);
                q = n;
                r = r3;
            },
            None => {
                assert(qn > u128::MAX);
                assert(qn == next_high * b as int / c as int);
                assert(next_high * b as int / c as int <= a as int * b as int / c as int);
                return None;
            },
        }
        k = kk;
    }
    proof {
        assert((a >> 0u32) == a) by (bit_vector);
        lemma_fundamental_div_mod_converse(a as int * b as int, c as int, q as int, r as int);
    }
    Some(q)
}

pub proof fn lemma_pro_rata_nonneg(amount: int, numerator: int, denominator: int)
    requires
        amount >= 0,
        numerator >= 0,
        denominator > 0,
    ensures
        pro_rata_spec(amount, numerator, denominator) >= 0,
{
    assert(amount * numerator / denominator >= 0) by (nonlinear_arith)
        requires amount >= 0, numerator >= 0, denominator > 0;
}

} // verus!
