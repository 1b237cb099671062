//! 256-bit unsigned values as little-endian sequences of 32-bit limbs, and
//! an in-memory reference for the host's fused multiply-add.

use vstd::prelude::*;
use vstd::arithmetic::power2::*;
use vstd::arithmetic::div_mod::*;
use vstd::arithmetic::mul::*;

verus! {

/// Value of the lowest `n` limbs of `s`, read as a little-endian base-2^32
/// number: limb `k` contributes `s[k] * 2^(32 * k)`.
pub open spec fn limbs_to_nat(s: Seq<u32>, n: nat) -> nat
    recommends
        n <= s.len(),
    decreases n,
{
    if n == 0 {
        0
    } else {
        limbs_to_nat(s, (n - 1) as nat) + (s[n - 1] as nat) * pow2(32 * ((n - 1) as nat))
    }
}

/// Value of a whole limb sequence, read as a little-endian base-2^32 number.
pub open spec fn as_nat(s: Seq<u32>) -> nat {
    limbs_to_nat(s, s.len())
}

/// `limbs_to_nat` reads only the lowest `n` limbs: sequences that agree
/// there have the same value.
proof fn lemma_limbs_to_nat_agree(s1: Seq<u32>, s2: Seq<u32>, n: nat)
    requires
        n <= s1.len(),
        n <= s2.len(),
        forall|i: int| 0 <= i < n ==> s1[i] == s2[i],
    ensures
        limbs_to_nat(s1, n) == limbs_to_nat(s2, n),
    decreases n,
{
    if n > 0 {
        lemma_limbs_to_nat_agree(s1, s2, (n - 1) as nat);
    }
}

/// A run of zero limbs has value zero.
proof fn lemma_limbs_to_nat_zero(s: Seq<u32>, n: nat)
    requires
        n <= s.len(),
        forall|i: int| 0 <= i < n ==> s[i] == 0,
    ensures
        limbs_to_nat(s, n) == 0,
    decreases n,
{
    if n > 0 {
        lemma_limbs_to_nat_zero(s, (n - 1) as nat);
    }
}

/// The lowest `n` limbs hold a value below `2^(32 * n)`.
proof fn lemma_limbs_to_nat_bound(s: Seq<u32>, n: nat)
    requires
        n <= s.len(),
    ensures
        limbs_to_nat(s, n) < pow2(32 * n),
    decreases n,
{
    if n == 0 {
        lemma2_to64();
    } else {
        let m: nat = (n - 1) as nat;
        lemma_limbs_to_nat_bound(s, m);
        lemma_pow2_adds(32 * m, 32);
        lemma2_to64();
        let p: nat = pow2(32 * m);
        let v: nat = s[m as int] as nat;
        assert(limbs_to_nat(s, n) == limbs_to_nat(s, m) + v * p);
        assert(v * p <= 0xffff_ffff * p) by (nonlinear_arith)
            requires
                v <= 0xffff_ffff,
                p >= 0,
        ;
        assert(p + 0xffff_ffff * p == 0x1_0000_0000 * p) by (nonlinear_arith);
        assert(limbs_to_nat(s, n) < 0x1_0000_0000 * p);
        assert(pow2(32 * n) == p * 0x1_0000_0000);
    }
}

/// Replacing limb `k` by `v` moves the value by `(v - s[k]) * 2^(32 * k)`,
/// written here without subtraction.
proof fn lemma_limbs_to_nat_update(s: Seq<u32>, n: nat, k: nat, v: u32)
    requires
        k < n,
        n <= s.len(),
    ensures
        limbs_to_nat(s.update(k as int, v), n) + (s[k as int] as nat) * pow2(32 * k)
            == limbs_to_nat(s, n) + (v as nat) * pow2(32 * k),
    decreases n,
{
    let t: Seq<u32> = s.update(k as int, v);
    let m: nat = (n - 1) as nat;
    if k == m {
        lemma_limbs_to_nat_agree(t, s, m);
    } else {
        lemma_limbs_to_nat_update(s, m, k, v);
        assert(t[m as int] == s[m as int]);
    }
}

/// The lowest `a + b` limbs split at `a`: the upper `b` limbs carry weight
/// `2^(32 * a)`.
proof fn lemma_limbs_to_nat_split(s: Seq<u32>, a: nat, b: nat)
    requires
        a + b <= s.len(),
    ensures
        limbs_to_nat(s, a + b) == limbs_to_nat(s, a) + pow2(32 * a) * limbs_to_nat(
            s.skip(a as int),
            b,
        ),
    decreases b,
{
    if b == 0 {
        assert(pow2(32 * a) * 0 == 0);
    } else {
        let b1: nat = (b - 1) as nat;
        lemma_limbs_to_nat_split(s, a, b1);
        let sk: Seq<u32> = s.skip(a as int);
        let pa: nat = pow2(32 * a);
        let pb1: nat = pow2(32 * b1);
        let l: nat = limbs_to_nat(sk, b1);
        let v: nat = sk[b1 as int] as nat;
        assert(sk[b1 as int] == s[a + b1 as int]);
        lemma_pow2_adds(32 * a, 32 * b1);
        assert(pa * (l + v * pb1) == pa * l + v * (pa * pb1)) by (nonlinear_arith);
        assert(limbs_to_nat(s, a + b) == limbs_to_nat(s, (a + b1) as nat) + v * pow2(
            32 * (a + b1),
        ));
    }
}

/// Of a 16-limb sequence, the lowest 8 limbs are exactly its value reduced
/// modulo `2^256`.
proof fn lemma_limbs_low_half_mod(s: Seq<u32>)
    requires
        s.len() == 16,
    ensures
        limbs_to_nat(s, 8) == limbs_to_nat(s, 16) % pow2(256),
{
    lemma_limbs_to_nat_split(s, 8, 8);
    lemma_limbs_to_nat_bound(s, 8);
    lemma_pow2_pos(256);
    let low: nat = limbs_to_nat(s, 8);
    let high: nat = limbs_to_nat(s.skip(8), 8);
    lemma_mod_multiples_vanish(high as int, low as int, pow2(256) as int);
    lemma_small_mod(low, pow2(256));
}

/// Accounting for one limb product during schoolbook multiplication.
///
/// `n0`/`n1` are the staging value before and after limb `i + j` was
/// replaced, `c0`/`c1` the carry before and after, `w` the limb's old value,
/// `v` its new value, `t` the machine word that produced them, `q` the
/// multiplicand limb, `r` the multiplier limb, `lj`/`lj1` the multiplier's
/// lowest `j` and `j + 1` limbs, `rw` the staging value at the row's start,
/// and `p*` the limb weights: `p == 2^(32(i+j))`, `p32 == 2^32`,
/// `pi == 2^(32i)`, `pj == 2^(32j)`, `pn == 2^(32(i+j+1))`.
proof fn lemma_muladd_step(
    n0: int,
    n1: int,
    c0: int,
    c1: int,
    w: int,
    v: int,
    t: int,
    q: int,
    r: int,
    lj: int,
    lj1: int,
    rw: int,
    p: int,
    p32: int,
    pi: int,
    pj: int,
    pn: int,
)
    requires
        n1 + w * p == n0 + v * p,
        t == w + q * r + c0,
        t == p32 * c1 + v,
        n0 + c0 * p == rw + q * lj * pi,
        lj1 == lj + r * pj,
        pn == p * p32,
        p == pi * pj,
    ensures
        n1 + c1 * pn == rw + q * lj1 * pi,
{
    assert(c1 * pn == (p32 * c1) * p) by (nonlinear_arith)
        requires
            pn == p * p32,
    ;
    assert((p32 * c1) * p == t * p - v * p) by (nonlinear_arith)
        requires
            t == p32 * c1 + v,
    ;
    assert(t * p == w * p + (q * r) * p + c0 * p) by (nonlinear_arith)
        requires
            t == w + q * r + c0,
    ;
    assert(n1 + c1 * pn == n0 + c0 * p + (q * r) * p);
    assert((q * r) * p == (q * (r * pj)) * pi) by (nonlinear_arith)
        requires
            p == pi * pj,
    ;
    assert(q * lj * pi + (q * (r * pj)) * pi == q * lj1 * pi) by (nonlinear_arith)
        requires
            lj1 == lj + r * pj,
    ;
}

/// In-memory reference for the host's fused multiply-add.
///
/// `acc` must hold the addend; `xy` holds the multiplicand in its lower 8
/// limbs and the multiplier in its upper 8 limbs, the exact layout the
/// accelerator takes its second operand in. On return `acc` holds
/// `xy[0..8] * xy[8..16] + acc` reduced modulo `2^256`, little-endian —
/// the value the host leaves in the output buffer, so this function serves
/// as the test double for the trap.
#[verifier::loop_isolation(false)]
pub fn muladd_uint256(acc: &mut [u32; 8], xy: &[u32; 16])
    ensures
        as_nat(final(acc)@) == (as_nat(xy@.subrange(0, 8)) * as_nat(xy@.subrange(8, 16)) + as_nat(
            old(acc)@,
        )) % pow2(256),
{
    let ghost acc0: Seq<u32> = old(acc)@;
    let ghost xs: Seq<u32> = xy@.subrange(0, 8);
    let ghost ys: Seq<u32> = xy@.subrange(8, 16);

    // Stage the addend in the low half of a double-width scratch value.
    let mut wide: [u32; 16] = [0; 16];
    let mut k: usize = 0;
    while k < 16
        invariant
            k <= 16,
            forall|m: int| 0 <= m < k && m < 8 ==> wide@[m] == acc0[m],
            forall|m: int| 8 <= m < k ==> wide@[m] == 0,
        decreases 16 - k,
    {
        if k < 8 {
            wide[k] = acc[k];
        } else {
            wide[k] = 0;
        }
        k = k + 1;
    }
    proof {
        lemma_limbs_to_nat_split(wide@, 8, 8);
        lemma_limbs_to_nat_zero(wide@.skip(8), 8);
        assert(limbs_to_nat(wide@, 16) == limbs_to_nat(wide@, 8) + pow2(256) * 0);
        lemma_limbs_to_nat_agree(wide@, acc0, 8);
        assert(limbs_to_nat(wide@, 16) == as_nat(acc0));
        lemma_mul_basics(as_nat(ys) as int);
        assert(limbs_to_nat(xs, 0) * as_nat(ys) == 0);
    }

    // Schoolbook multiplication: row `i` adds `xs[i] * ys * 2^(32 i)`.
    let mut i: usize = 0;
    while i < 8
        invariant
            i <= 8,
            acc@ == acc0,
            forall|m: int| 8 + i <= m < 16 ==> wide@[m] == 0,
            limbs_to_nat(wide@, 16) == as_nat(acc0) + limbs_to_nat(xs, i as nat) * as_nat(ys),
        decreases 8 - i,
    {
        let ghost row0: Seq<u32> = wide@;
        let xi: u32 = xy[i];
        proof {
            lemma_mul_basics(pow2(32 * (i as nat)) as int);
            lemma_mul_basics(xi as int);
            assert((0 as nat) * pow2(32 * (i as nat)) == 0);
            assert((xi as nat) * limbs_to_nat(ys, 0) == 0);
            assert((xi as nat) * limbs_to_nat(ys, 0) * pow2(32 * (i as nat)) == 0);
        }
        let mut carry: u64 = 0;
        let mut j: usize = 0;
        while j < 8
            invariant
                j <= 8,
                carry < 0x1_0000_0000,
                forall|m: int| 0 <= m < 16 && (m < i || i + j <= m) ==> wide@[m] == row0[m],
                limbs_to_nat(wide@, 16) + (carry as nat) * pow2(32 * (i + j) as nat)
                    == limbs_to_nat(row0, 16) + (xi as nat) * limbs_to_nat(ys, j as nat) * pow2(
                    32 * i as nat,
                ),
            decreases 8 - j,
        {
            let yj: u32 = xy[8 + j];
            let w: u32 = wide[i + j];
            proof {
                lemma_mul_upper_bound(xi as int, 0xffff_ffff, yj as int, 0xffff_ffff);
            }
            let t: u64 = (w as u64) + (xi as u64) * (yj as u64) + carry;
            let v: u32 = (t % 0x1_0000_0000u64) as u32;
            let c_next: u64 = t / 0x1_0000_0000u64;
            let ghost wpre: Seq<u32> = wide@;
            wide[i + j] = v;
            proof {
                lemma_limbs_to_nat_update(wpre, 16, (i + j) as nat, v);
                lemma_fundamental_div_mod(t as int, 0x1_0000_0000);
                lemma_pow2_adds(32 * ((i + j) as nat), 32);
                lemma_pow2_adds(32 * (i as nat), 32 * (j as nat));
                lemma2_to64();
                assert(ys[j as int] == xy@[8 + j]);
                assert(limbs_to_nat(ys, (j + 1) as nat) == limbs_to_nat(ys, j as nat) + (
                yj as nat) * pow2(32 * (j as nat)));
                lemma_muladd_step(
                    limbs_to_nat(wpre, 16) as int,
                    limbs_to_nat(wide@, 16) as int,
                    carry as int,
                    c_next as int,
                    wpre[(i + j) as int] as int,
                    v as int,
                    t as int,
                    xi as int,
                    yj as int,
                    limbs_to_nat(ys, j as nat) as int,
                    limbs_to_nat(ys, (j + 1) as nat) as int,
                    limbs_to_nat(row0, 16) as int,
                    pow2(32 * ((i + j) as nat)) as int,
                    pow2(32) as int,
                    pow2(32 * (i as nat)) as int,
                    pow2(32 * (j as nat)) as int,
                    pow2(32 * ((i + j + 1) as nat)) as int,
                );
            }
            carry = c_next;
            j = j + 1;
        }
        // Store the row's final carry in the first untouched limb above it.
        let ghost wpre: Seq<u32> = wide@;
        let ghost pi: nat = pow2(32 * (i as nat));
        wide[i + 8] = carry as u32;
        i = i + 1;
        proof {
            assert(forall|m: int| 8 + (i - 1) <= m < 16 ==> wpre[m] == row0[m]);
            assert(forall|m: int| 8 + (i - 1) <= m < 16 ==> wpre[m] == 0);
            lemma_limbs_to_nat_update(wpre, 16, (i - 1 + 8) as nat, (carry as u32));
            assert(wpre[(i - 1 + 8) as int] == 0);
            assert(forall|m: int| 8 + i <= m < 16 ==> wide@[m] == 0);
            assert(limbs_to_nat(wide@, 16) == limbs_to_nat(row0, 16) + (xi as nat)
                * limbs_to_nat(ys, 8) * pi);
            assert(limbs_to_nat(xs, i as nat) == limbs_to_nat(xs, (i - 1) as nat) + (xi as nat)
                * pi);
            assert(limbs_to_nat(xs, (i - 1) as nat) * as_nat(ys) + ((xi as nat) * pi) * as_nat(
            ys) == limbs_to_nat(xs, i as nat) * as_nat(ys)) by (nonlinear_arith)
                requires
                    limbs_to_nat(xs, i as nat) == limbs_to_nat(xs, (i - 1) as nat) + (xi as nat)
                        * pi,
            ;
            assert((xi as nat) * limbs_to_nat(ys, 8) * pi == ((xi as nat) * pi) * as_nat(ys))
                by (nonlinear_arith)
                requires
                    limbs_to_nat(ys, 8) == as_nat(ys),
            ;
        }
    }

    // The low half of the scratch value is the reduced result.
    proof {
        lemma_limbs_low_half_mod(wide@);
    }
    let mut k: usize = 0;
    while k < 8
        invariant
            k <= 8,
            forall|m: int| 0 <= m < k ==> acc@[m] == wide@[m],
        decreases 8 - k,
    {
        acc[k] = wide[k];
        k = k + 1;
    }
    proof {
        lemma_limbs_to_nat_agree(acc@, wide@, 8);
    }
}

} // verus!
