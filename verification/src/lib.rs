//! Generators of stack-machine bytecode fragments for arithmetic in the
//! Mersenne-31 prime field and its complex (CM31) extension, together with
//! a model of the machine's integer opcodes and proofs that each fragment
//! computes the stated field operation on the operand stack.

pub mod karatsuba_complex;
pub mod m31;
pub mod qm31;
pub mod vm;

pub use karatsuba_complex::{karatsuba_big, karatsuba_small};
pub use m31::{
    m31_add, m31_add_n31, m31_double, m31_mul, m31_neg, m31_sub, m31_to_n31, n31_add, n31_add_m31,
    n31_double, n31_neg, n31_sub, n31_to_m31,
};
pub use qm31::{
    qm31_add, qm31_copy, qm31_double, qm31_equalverify, qm31_fromaltstack, qm31_mul, qm31_mul_m31,
    qm31_roll, qm31_sub, qm31_toaltstack,
};
pub use vm::{Fragment, Instr, Op, P};
