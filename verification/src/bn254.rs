//! Requests to the host's BN254 scalar-field accelerator.
//!
//! Each request is one trap instruction: an operation code and up to two
//! buffer addresses. The host reads and writes the buffers in place; this
//! layer only fixes the operation codes and arranges the operands in the
//! layout the host expects. The trap is emitted only when the guest is
//! compiled for the zkVM target. On any other target — in particular
//! wherever this library itself is built — a request performs nothing and
//! every buffer keeps its value, which is what the contracts below state.

use vstd::prelude::*;
use vstd::arithmetic::power2::pow2;
use crate::uint256::as_nat;
use crate::uint256::muladd_uint256;

verus! {

/// Operation code selecting in-place scalar multiplication.
pub const BN254_SCALAR_MUL: u32 = 0x00_01_01_80;

/// Operation code selecting scalar multiply-accumulate.
pub const BN254_SCALAR_MAC: u32 = 0x00_01_01_81;

/// Operation code selecting the fused 256-bit multiply-add.
pub const BN254_MULADD: u32 = 0x00_01_01_1F;

/// Request in-place scalar multiplication `p *= q` of two field elements,
/// each given as 8 little-endian 32-bit limbs.
///
/// Outside the zkVM target no trap handler exists, the request is dropped,
/// and `p` is left untouched.
pub fn syscall_bn254_scalar_mul(p: &mut [u32; 8], q: &[u32; 8])
    ensures
        final(p)@ == old(p)@,
{
}

/// Request the scalar multiply-accumulate `ret += a * b` of field elements,
/// each given as 8 little-endian 32-bit limbs.
///
/// Outside the zkVM target no trap handler exists, the request is dropped,
/// and `ret` is left untouched.
pub fn syscall_bn254_scalar_mac(ret: &mut [u32; 8], a: &[u32; 8], b: &[u32; 8])
    ensures
        final(ret)@ == old(ret)@,
{
}

/// Request the fused 256-bit multiply-add. `x` must already hold the addend;
/// `y` holds the multiplicand pair, concatenated as 8 + 8 limbs. The host
/// overwrites `x` with `y[0..8] * y[8..16] + x` modulo 2^256.
///
/// Outside the zkVM target no trap handler exists, the request is dropped,
/// and `x` is left untouched.
pub fn syscall_bn254_muladd(x: &mut [u32; 8], y: &[u32; 16])
    ensures
        final(x)@ == old(x)@,
{
}

/// Overwrite `dst` with the 8 limbs of `src`.
#[verifier::loop_isolation(false)]
pub fn copy_limbs(dst: &mut [u32; 8], src: &[u32; 8])
    ensures
        final(dst)@ == src@,
{
    let mut k: usize = 0;
    while k < 8
        invariant
            k <= 8,
            forall|m: int| 0 <= m < k ==> dst@[m] == src@[m],
        decreases 8 - k,
    {
        dst[k] = src[k];
        k = k + 1;
    }
    assert(dst@ =~= src@);
}

/// Build the 16-limb concatenation buffer for a fused multiply-add request:
/// the multiplicand `x` fills the lower half and the multiplier `y` the
/// upper half.
#[verifier::loop_isolation(false)]
pub fn concat_operands(x: &[u32; 8], y: &[u32; 8]) -> (c: [u32; 16])
    ensures
        c@ == x@ + y@,
{
    let mut c: [u32; 16] = [0; 16];
    let mut k: usize = 0;
    while k < 8
        invariant
            k <= 8,
            forall|m: int| 0 <= m < k ==> c@[m] == x@[m],
        decreases 8 - k,
    {
        c[k] = x[k];
        k = k + 1;
    }
    let mut k: usize = 0;
    while k < 8
        invariant
            k <= 8,
            forall|m: int| 0 <= m < 8 ==> c@[m] == x@[m],
            forall|m: int| 0 <= m < k ==> c@[8 + m] == y@[m],
        decreases 8 - k,
    {
        c[8 + k] = y[k];
        k = k + 1;
    }
    assert(c@ =~= x@ + y@);
    c
}

/// Stage and issue a fused 256-bit multiply-add request.
///
/// The host computes `result = x * y + z` over 256-bit little-endian
/// values and expects the addend preloaded into the output buffer and the
/// two multiplicands concatenated in one 16-limb buffer. This entrypoint
/// copies `x` and `y` into a fresh concatenation buffer, copies `z` into
/// `result`, and issues the trap with `result` and the concatenation buffer
/// as its operands. The selector `op` is reserved and has no effect.
///
/// Outside the zkVM target the trap performs nothing, so `result` still
/// holds the addend `z` when the call returns.
#[allow(unused_variables)]
pub fn syscall_bn254_muladd_entrypoint(
    result: &mut [u32; 8],
    op: u32,
    x: &[u32; 8],
    y: &[u32; 8],
    z: &[u32; 8],
)
    ensures
        final(result)@ == z@,
{
    let concat_x_y: [u32; 16] = concat_operands(x, y);
    copy_limbs(result, z);
    syscall_bn254_muladd(result, &concat_x_y);
}

/// The multiply-add entrypoint wired to the in-memory reference host
/// instead of the trap: it stages the operands exactly as
/// `syscall_bn254_muladd_entrypoint` does, then lets
/// [`muladd_uint256`](crate::uint256::muladd_uint256) play the accelerator.
/// Its contract is the meaning of the request: with the addend preloaded
/// into `result` and `x` and `y` concatenated, the host leaves
/// `x * y + z` modulo 2^256 in `result`, for every choice of operands.
/// The selector `op` is reserved and has no effect.
#[allow(unused_variables)]
pub fn muladd_entrypoint_reference(
    result: &mut [u32; 8],
    op: u32,
    x: &[u32; 8],
    y: &[u32; 8],
    z: &[u32; 8],
)
    ensures
        as_nat(final(result)@) == (as_nat(x@) * as_nat(y@) + as_nat(z@)) % pow2(256),
{
    let concat_x_y: [u32; 16] = concat_operands(x, y);
    copy_limbs(result, z);
    muladd_uint256(result, &concat_x_y);
    proof {
        assert(concat_x_y@.subrange(0, 8) =~= x@);
        assert(concat_x_y@.subrange(8, 16) =~= y@);
    }
}

} // verus!
