use bn254_syscall::bn254::concat_operands;
use bn254_syscall::bn254::copy_limbs;
use bn254_syscall::bn254::muladd_entrypoint_reference;
use bn254_syscall::bn254::syscall_bn254_muladd;
use bn254_syscall::bn254::syscall_bn254_muladd_entrypoint;
use bn254_syscall::bn254::syscall_bn254_scalar_mac;
use bn254_syscall::bn254::syscall_bn254_scalar_mul;
use bn254_syscall::bn254::BN254_MULADD;
use bn254_syscall::bn254::BN254_SCALAR_MAC;
use bn254_syscall::bn254::BN254_SCALAR_MUL;

#[test]
fn opcode_values() {
    assert_eq!(BN254_SCALAR_MUL, 0x00010180);
    assert_eq!(BN254_SCALAR_MAC, 0x00010181);
    assert_eq!(BN254_MULADD, 0x0001011F);
}

#[test]
fn scalar_mul_leaves_buffers_off_target() {
    let mut p: [u32; 8] = [1, 2, 3, 4, 5, 6, 7, 8];
    let q: [u32; 8] = [9, 10, 11, 12, 13, 14, 15, 16];
    syscall_bn254_scalar_mul(&mut p, &q);
    assert_eq!(p, [1, 2, 3, 4, 5, 6, 7, 8]);
    assert_eq!(q, [9, 10, 11, 12, 13, 14, 15, 16]);
}

#[test]
fn scalar_mac_leaves_buffers_off_target() {
    let mut ret: [u32; 8] = [21, 22, 23, 24, 25, 26, 27, 28];
    let a: [u32; 8] = [1, 0, 0, 0, 0, 0, 0, 0];
    let b: [u32; 8] = [2, 0, 0, 0, 0, 0, 0, 0];
    syscall_bn254_scalar_mac(&mut ret, &a, &b);
    assert_eq!(ret, [21, 22, 23, 24, 25, 26, 27, 28]);
    assert_eq!(a, [1, 0, 0, 0, 0, 0, 0, 0]);
    assert_eq!(b, [2, 0, 0, 0, 0, 0, 0, 0]);
}

#[test]
fn muladd_primitive_leaves_buffers_off_target() {
    let mut x: [u32; 8] = [0xdead, 0xbeef, 0, 1, 2, 3, 4, 5];
    let y: [u32; 16] = [7; 16];
    syscall_bn254_muladd(&mut x, &y);
    assert_eq!(x, [0xdead, 0xbeef, 0, 1, 2, 3, 4, 5]);
    assert_eq!(y, [7; 16]);
}

#[test]
fn copy_limbs_overwrites_destination() {
    let mut dst: [u32; 8] = [0xffffffff; 8];
    let src: [u32; 8] = [1, 2, 3, 4, 5, 6, 7, 8];
    copy_limbs(&mut dst, &src);
    assert_eq!(dst, src);
}

#[test]
fn concat_places_x_low_and_y_high() {
    let x: [u32; 8] = [1, 2, 3, 4, 5, 6, 7, 8];
    let y: [u32; 8] = [11, 12, 13, 14, 15, 16, 17, 18];
    let c = concat_operands(&x, &y);
    assert_eq!(&c[0..8], &x);
    assert_eq!(&c[8..16], &y);
}

#[test]
fn entrypoint_stages_addend_into_result() {
    let mut result: [u32; 8] = [0xaaaaaaaa; 8];
    let x: [u32; 8] = [1, 2, 3, 4, 5, 6, 7, 8];
    let y: [u32; 8] = [11, 12, 13, 14, 15, 16, 17, 18];
    let z: [u32; 8] = [21, 22, 23, 24, 25, 26, 27, 28];
    syscall_bn254_muladd_entrypoint(&mut result, 0, &x, &y, &z);
    // Off the zkVM target the trap performs nothing, so the result buffer
    // still holds the staged addend.
    assert_eq!(result, z);
    assert_eq!(x, [1, 2, 3, 4, 5, 6, 7, 8]);
    assert_eq!(y, [11, 12, 13, 14, 15, 16, 17, 18]);
    assert_eq!(z, [21, 22, 23, 24, 25, 26, 27, 28]);
}

#[test]
fn reference_entrypoint_small_values() {
    let mut result: [u32; 8] = [0; 8];
    let x: [u32; 8] = [1, 0, 0, 0, 0, 0, 0, 0];
    let y: [u32; 8] = [2, 0, 0, 0, 0, 0, 0, 0];
    let z: [u32; 8] = [3, 0, 0, 0, 0, 0, 0, 0];
    muladd_entrypoint_reference(&mut result, 0, &x, &y, &z);
    assert_eq!(result, [5, 0, 0, 0, 0, 0, 0, 0]);
}

#[test]
fn reference_entrypoint_leaves_inputs_untouched() {
    let mut result: [u32; 8] = [0; 8];
    let x: [u32; 8] = [0x12345678, 1, 2, 3, 4, 5, 6, 7];
    let y: [u32; 8] = [0x9abcdef0, 8, 9, 10, 11, 12, 13, 14];
    let z: [u32; 8] = [0x0f0f0f0f, 15, 16, 17, 18, 19, 20, 21];
    let x_copy = x;
    let y_copy = y;
    let z_copy = z;
    muladd_entrypoint_reference(&mut result, 0, &x, &y, &z);
    assert_eq!(x, x_copy);
    assert_eq!(y, y_copy);
    assert_eq!(z, z_copy);
}
