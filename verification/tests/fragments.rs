//! Executes the emitted fragments on a reference interpreter of the
//! machine's integer opcodes and checks the field results.

use bitcoin_m31::{
    karatsuba_big, karatsuba_small, m31_add, m31_add_n31, m31_double, m31_mul, m31_neg, m31_sub,
    m31_to_n31, n31_add, n31_add_m31, n31_double, n31_neg, n31_sub, n31_to_m31, qm31_add,
    qm31_copy, qm31_double, qm31_equalverify, qm31_fromaltstack, qm31_mul, qm31_mul_m31,
    qm31_roll, qm31_sub, qm31_toaltstack, Fragment, Instr, Op, P,
};
use p3_field::PrimeField32;
use p3_mersenne_31::Mersenne31;
use rand::{Rng, SeedableRng};
use rand_chacha::ChaCha20Rng;

const MOD: u32 = (1 << 31) - 1;

fn num_ok(x: i64) -> bool {
    -P <= x && x <= P
}

fn exec_op(op: &Op, stack: &mut Vec<i64>, alt: &mut Vec<i64>) -> bool {
    match *op {
        Op::Push(v) => {
            stack.push(v);
            true
        }
        Op::Add | Op::Sub | Op::Mul | Op::Div | Op::LessThan | Op::GreaterEq => {
            if stack.len() < 2 {
                return false;
            }
            let b = stack.pop().unwrap();
            let a = stack.pop().unwrap();
            if !num_ok(a) || !num_ok(b) {
                return false;
            }
            let r = match *op {
                Op::Add => a + b,
                Op::Sub => a - b,
                Op::Mul => a * b,
                Op::Div => {
                    if a < 0 || b <= 0 {
                        return false;
                    }
                    a / b
                }
                Op::LessThan => (a < b) as i64,
                _ => (a >= b) as i64,
            };
            stack.push(r);
            true
        }
        Op::Dup => {
            if let Some(&a) = stack.last() {
                stack.push(a);
                true
            } else {
                false
            }
        }
        Op::Dup2 => {
            if stack.len() < 2 {
                return false;
            }
            let n = stack.len();
            let (a, b) = (stack[n - 2], stack[n - 1]);
            stack.push(a);
            stack.push(b);
            true
        }
        Op::Swap => {
            if stack.len() < 2 {
                return false;
            }
            let n = stack.len();
            stack.swap(n - 2, n - 1);
            true
        }
        Op::Rot => {
            if stack.len() < 3 {
                return false;
            }
            let n = stack.len();
            let a = stack.remove(n - 3);
            stack.push(a);
            true
        }
        Op::Over => {
            if stack.len() < 2 {
                return false;
            }
            let a = stack[stack.len() - 2];
            stack.push(a);
            true
        }
        Op::Pick | Op::Roll => {
            if stack.is_empty() {
                return false;
            }
            let d = stack.pop().unwrap();
            if d < 0 || (d as usize) >= stack.len() {
                return false;
            }
            let idx = stack.len() - 1 - d as usize;
            let v = if matches!(*op, Op::Pick) {
                stack[idx]
            } else {
                stack.remove(idx)
            };
            stack.push(v);
            true
        }
        Op::ToAlt => {
            if let Some(a) = stack.pop() {
                alt.push(a);
                true
            } else {
                false
            }
        }
        Op::FromAlt => {
            if let Some(a) = alt.pop() {
                stack.push(a);
                true
            } else {
                false
            }
        }
        Op::Equal => {
            if stack.len() < 2 {
                return false;
            }
            let b = stack.pop().unwrap();
            let a = stack.pop().unwrap();
            stack.push((a == b) as i64);
            true
        }
        Op::EqualVerify => {
            if stack.len() < 2 {
                return false;
            }
            let b = stack.pop().unwrap();
            let a = stack.pop().unwrap();
            a == b
        }
    }
}

fn exec(frag: &Fragment, stack: &mut Vec<i64>, alt: &mut Vec<i64>) -> bool {
    for instr in &frag.ops {
        match instr {
            Instr::Op(op) => {
                if !exec_op(op, stack, alt) {
                    return false;
                }
            }
            Instr::If(t, e) => {
                let c = match stack.pop() {
                    Some(c) if c == 0 || c == 1 => c,
                    _ => return false,
                };
                let branch = if c == 1 { t } else { e };
                for op in branch {
                    if !exec_op(op, stack, alt) {
                        return false;
                    }
                }
            }
        }
    }
    true
}

fn run_on(frag: &Fragment, input: &[i64]) -> Vec<i64> {
    let mut stack: Vec<i64> = input.to_vec();
    let mut alt: Vec<i64> = Vec::new();
    assert!(exec(frag, &mut stack, &mut alt), "fragment failed");
    assert!(alt.is_empty(), "alt stack not balanced");
    stack
}

#[test]
fn test_m31_add() {
    let mut prng = ChaCha20Rng::seed_from_u64(0u64);
    println!("m31 add: {}", m31_add().ops.len());
    for _ in 0..100 {
        let a: u32 = prng.gen();
        let b: u32 = prng.gen();
        let a_m31 = a % MOD;
        let b_m31 = b % MOD;
        let sum_m31 = (a_m31 + b_m31) % MOD;
        let out = run_on(&m31_add(), &[a_m31 as i64, b_m31 as i64]);
        assert!(out == vec![sum_m31 as i64]);
    }
}

#[test]
fn test_m31_sub() {
    let mut prng = ChaCha20Rng::seed_from_u64(0u64);
    println!("m31 sub: {}", m31_sub().ops.len());
    for _ in 0..100 {
        let a: u32 = prng.gen();
        let b: u32 = prng.gen();
        let a_m31 = a % MOD;
        let b_m31 = b % MOD;
        let diff_m31 = (MOD + a_m31 - b_m31) % MOD;
        let out = run_on(&m31_sub(), &[a_m31 as i64, b_m31 as i64]);
        assert!(out == vec![diff_m31 as i64]);
    }
}

#[test]
fn test_m31_mul() {
    let mut prng = ChaCha20Rng::seed_from_u64(6u64);
    println!("m31 mul: {}", m31_mul().ops.len());
    for _ in 0..100 {
        let a: u32 = prng.gen();
        let b: u32 = prng.gen();
        let a_m31 = a % MOD;
        let b_m31 = b % MOD;
        let prod_m31 = ((((a_m31 as u64) * (b_m31 as u64)) % (MOD as u64)) & 0xffffffff) as u32;
        let out = run_on(&m31_mul(), &[a_m31 as i64, b_m31 as i64]);
        assert!(out == vec![prod_m31 as i64]);
    }
}

#[test]
fn test_m31_neg() {
    let mut prng = ChaCha20Rng::seed_from_u64(6u64);
    println!("m31 neg: {}", m31_neg().ops.len());
    for _ in 0..100 {
        let a: u32 = prng.gen();
        let a_m31 = a % MOD;
        let b_m31 = MOD - a_m31;
        let out = run_on(&m31_neg(), &[a_m31 as i64]);
        assert!(out == vec![b_m31 as i64]);
    }
}

#[test]
fn test_small_karatsuba() {
    let mut prng = ChaCha20Rng::seed_from_u64(0u64);
    let a1: Mersenne31 = prng.gen();
    let b1: Mersenne31 = prng.gen();
    let a2: Mersenne31 = prng.gen();
    let b2: Mersenne31 = prng.gen();
    let first = a1 * b2 + a2 * b1;
    let second = b1 * b2 - a1 * a2;
    let out = run_on(
        &karatsuba_small(),
        &[
            a1.as_canonical_u32() as i64,
            b1.as_canonical_u32() as i64,
            a2.as_canonical_u32() as i64,
            b2.as_canonical_u32() as i64,
        ],
    );
    assert!(out == vec![first.as_canonical_u32() as i64, second.as_canonical_u32() as i64]);
}

#[test]
fn scenario_add_seven_five() {
    let out = run_on(&m31_add(), &[7, 5]);
    assert_eq!(out, vec![12]);
}

#[test]
fn scenario_mul_wraps_modulus() {
    let out = run_on(&m31_mul(), &[2147483646, 2]);
    assert_eq!(out, vec![2147483645]);
}

#[test]
fn scenario_karatsuba_small_literals() {
    let out = run_on(&karatsuba_small(), &[1, 2, 3, 4]);
    assert_eq!(out, vec![1 * 4 + 3 * 2, 2 * 4 - 1 * 3]);
}

#[test]
fn scenario_add_then_sub_is_identity() {
    let a: i64 = 1234567;
    let b: i64 = 2147483000;
    let mid = run_on(&m31_add(), &[a, b]);
    let out = run_on(&m31_sub(), &[mid[0], b]);
    assert_eq!(out, vec![a]);
}

#[test]
fn negative_range_ops_round_trip() {
    let out = run_on(&m31_to_n31(), &[5]);
    assert_eq!(out, vec![5 - P]);
    let out = run_on(&n31_to_m31(), &[5 - P]);
    assert_eq!(out, vec![5]);
    let out = run_on(&m31_add_n31(), &[7, -3]);
    assert_eq!(out, vec![4]);
    let out = run_on(&n31_add_m31(), &[-3, 7]);
    assert_eq!(out, vec![4 - P]);
    let out = run_on(&n31_add(), &[-3, -4]);
    assert_eq!(out, vec![-7]);
    let out = run_on(&n31_sub(), &[-9, -4]);
    assert_eq!(out, vec![-5]);
    let out = run_on(&n31_double(), &[-6]);
    assert_eq!(out, vec![-12]);
    let out = run_on(&n31_neg(), &[-8]);
    assert_eq!(out, vec![-P + 8]);
}

#[test]
fn doubling_matches_addition() {
    let out = run_on(&m31_double(), &[2147483000]);
    let expect = ((2u64 * 2147483000) % (MOD as u64)) as i64;
    assert_eq!(out, vec![expect]);
}

#[test]
fn builder_splices_verbatim() {
    let mut f = Fragment::new();
    f.op(Op::Push(3));
    let mut g = Fragment::new();
    g.op(Op::Add);
    f.splice(g);
    assert_eq!(f.ops.len(), 2);
    assert!(matches!(f.ops[0], Instr::Op(Op::Push(3))));
    assert!(matches!(f.ops[1], Instr::Op(Op::Add)));
}

type F = p3_field::extension::BinomialExtensionField<p3_field::extension::Complex<Mersenne31>, 2>;

fn lanes(x: F) -> Vec<i64> {
    let s: &[p3_field::extension::Complex<Mersenne31>] =
        p3_field::AbstractExtensionField::as_base_slice(&x);
    vec![
        s[1].imag().as_canonical_u32() as i64,
        s[1].real().as_canonical_u32() as i64,
        s[0].imag().as_canonical_u32() as i64,
        s[0].real().as_canonical_u32() as i64,
    ]
}

fn cat(a: &[i64], b: &[i64]) -> Vec<i64> {
    let mut v = a.to_vec();
    v.extend_from_slice(b);
    v
}

#[test]
fn test_small_karatsuba_consistency() {
    let mut rng = ChaCha20Rng::seed_from_u64(0u64);
    let a: p3_field::extension::Complex<Mersenne31> = rng.gen();
    let b: p3_field::extension::Complex<Mersenne31> = rng.gen();
    let c = a * b;
    let out = run_on(
        &karatsuba_small(),
        &[
            a.imag().as_canonical_u32() as i64,
            a.real().as_canonical_u32() as i64,
            b.imag().as_canonical_u32() as i64,
            b.real().as_canonical_u32() as i64,
        ],
    );
    assert!(out == vec![c.imag().as_canonical_u32() as i64, c.real().as_canonical_u32() as i64]);
}

#[test]
fn test_qm31_add() {
    let mut rng = ChaCha20Rng::seed_from_u64(0u64);
    println!("qm31 add: {}", qm31_add().ops.len());
    let a = rng.gen::<F>();
    let b = rng.gen::<F>();
    let c = a + b;
    let out = run_on(&qm31_add(), &cat(&lanes(a), &lanes(b)));
    assert!(out == lanes(c));
}

#[test]
fn test_qm31_double() {
    let mut rng = ChaCha20Rng::seed_from_u64(0u64);
    let a = rng.gen::<F>();
    let c = a + a;
    let out = run_on(&qm31_double(), &lanes(a));
    assert!(out == lanes(c));
}

#[test]
fn test_qm31_sub() {
    let mut rng = ChaCha20Rng::seed_from_u64(0u64);
    println!("qm31 sub: {}", qm31_sub().ops.len());
    let a = rng.gen::<F>();
    let b = rng.gen::<F>();
    let c = a - b;
    let out = run_on(&qm31_sub(), &cat(&lanes(a), &lanes(b)));
    assert!(out == lanes(c));
}

#[test]
fn test_qm31_mul() {
    let mut rng = ChaCha20Rng::seed_from_u64(0u64);
    println!("qm31 mul: {}", qm31_mul().ops.len());
    let a = rng.gen::<F>();
    let b = rng.gen::<F>();
    let c = a * b;
    let out = run_on(&qm31_mul(), &cat(&lanes(a), &lanes(b)));
    assert!(out == lanes(c));
}

#[test]
fn test_qm31_mul_m31() {
    let mul_script = qm31_mul_m31();
    let mut rng = ChaCha20Rng::seed_from_u64(0u64);
    println!("qm31 mul_by_m31: {}", mul_script.ops.len());
    let a = rng.gen::<F>();
    let b = rng.gen::<Mersenne31>();
    let scalar: F = p3_field::AbstractExtensionField::from_base(
        p3_field::extension::Complex::new_real(b),
    );
    let c = a * scalar;
    let mut input = lanes(a);
    input.push(b.as_canonical_u32() as i64);
    let out = run_on(&mul_script, &input);
    assert!(out == lanes(c));
}

#[test]
fn test_qm31_copy() {
    let mut rng = ChaCha20Rng::seed_from_u64(0u64);
    let a = rng.gen::<F>();
    let b = rng.gen::<F>();
    let stack = cat(&lanes(a), &lanes(b));
    let out = run_on(&qm31_copy(1), &stack);
    assert!(out == cat(&stack, &lanes(a)));
}

#[test]
fn test_qm31_roll() {
    let mut rng = ChaCha20Rng::seed_from_u64(0u64);
    let a = rng.gen::<F>();
    let b = rng.gen::<F>();
    let out = run_on(&qm31_roll(1), &cat(&lanes(a), &lanes(b)));
    assert!(out == cat(&lanes(b), &lanes(a)));
}

#[test]
fn test_big_karatsuba() {
    let mut prng = ChaCha20Rng::seed_from_u64(0u64);
    let vals: Vec<Mersenne31> = (0..8).map(|_| prng.gen()).collect();
    let (a1, b1, c1, d1, a2, b2, c2, d2) = (
        vals[0], vals[1], vals[2], vals[3], vals[4], vals[5], vals[6], vals[7],
    );
    let group1_first = a1 * b2 + a2 * b1;
    let group1_second = b1 * b2 - a1 * a2;
    let group3_first = c1 * d2 + c2 * d1;
    let group3_second = d1 * d2 - c1 * c2;
    let group2_first = a1 * d2 + b1 * c2 + a2 * d1 + b2 * c1;
    let group2_second = b1 * d2 + b2 * d1 - (a1 * c2 + a2 * c1);
    let input: Vec<i64> = vals.iter().map(|v| v.as_canonical_u32() as i64).collect();
    let out = run_on(&karatsuba_big(), &input);
    let expect: Vec<i64> = [
        group1_first,
        group1_second,
        group2_first,
        group2_second,
        group3_first,
        group3_second,
    ]
    .iter()
    .map(|v| v.as_canonical_u32() as i64)
    .collect();
    assert!(out == expect);
}

#[test]
fn qm31_equalverify_accepts_equal() {
    let mut rng = ChaCha20Rng::seed_from_u64(7u64);
    let a = rng.gen::<F>();
    let out = run_on(&qm31_equalverify(), &cat(&lanes(a), &lanes(a)));
    assert!(out.is_empty());
}

#[test]
fn qm31_equalverify_rejects_each_lane() {
    let mut rng = ChaCha20Rng::seed_from_u64(7u64);
    let a = rng.gen::<F>();
    for lane in 0..4 {
        let mut other = lanes(a);
        other[lane] = (other[lane] + 1) % (MOD as i64);
        let frag = qm31_equalverify();
        let mut stack = cat(&lanes(a), &other);
        let mut alt: Vec<i64> = Vec::new();
        assert!(!exec(&frag, &mut stack, &mut alt));
    }
}

#[test]
fn qm31_altstack_round_trip() {
    let mut rng = ChaCha20Rng::seed_from_u64(9u64);
    let a = rng.gen::<F>();
    let b = rng.gen::<F>();
    let stack0 = cat(&lanes(a), &lanes(b));
    let mut stack = stack0.clone();
    let mut alt: Vec<i64> = Vec::new();
    assert!(exec(&qm31_toaltstack(), &mut stack, &mut alt));
    assert_eq!(alt.len(), 4);
    assert!(exec(&qm31_fromaltstack(), &mut stack, &mut alt));
    assert!(alt.is_empty());
    assert_eq!(stack, stack0);
}

#[test]
fn qm31_copy_then_equalverify_leaves_stack() {
    let mut rng = ChaCha20Rng::seed_from_u64(11u64);
    let a = rng.gen::<F>();
    let b = rng.gen::<F>();
    let stack0 = cat(&lanes(a), &lanes(b));
    let mut stack = stack0.clone();
    let mut alt: Vec<i64> = Vec::new();
    assert!(exec(&qm31_copy(1), &mut stack, &mut alt));
    stack.extend_from_slice(&lanes(a));
    assert!(exec(&qm31_equalverify(), &mut stack, &mut alt));
    assert_eq!(stack, stack0);
}

#[test]
fn qm31_mul_by_one_is_identity() {
    let mut rng = ChaCha20Rng::seed_from_u64(13u64);
    let y = rng.gen::<F>();
    let input = cat(&lanes(y), &[0, 0, 0, 1]);
    let out = run_on(&qm31_mul(), &input);
    assert!(out == lanes(y));
}
