//! Guest-side bindings for the BN254 scalar-field accelerator of a zkVM host.
//!
//! The library covers the marshaling side of the accelerator protocol: the
//! fixed operation codes, the little-endian limb layout of the 256-bit
//! operands, and the staging of buffers for the fused multiply-add request.
//! The trap instruction itself is only emitted when a guest build targets the
//! zkVM; on every other target a request is a silent no-op, and the
//! target-gated instruction lives with the embedding application.

pub mod bn254;
pub mod uint256;
