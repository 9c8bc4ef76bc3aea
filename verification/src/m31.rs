//! Fragments for arithmetic in the Mersenne-31 prime field.
//!
//! A field element lives on the machine stack either as its canonical
//! representative in `[0, p)` or as its negative representative in
//! `(-p, 0]` (written N31 below); the two differ by exactly `p`. The
//! negative form lets a sum or difference escape the canonical range so a
//! single conditional adjustment can restore it.

use vstd::arithmetic::div_mod::{
    lemma_add_mod_noop_right, lemma_div_nonincreasing, lemma_div_pos_is_pos,
    lemma_fundamental_div_mod, lemma_mod_add_multiples_vanish, lemma_mod_bound,
    lemma_mod_multiples_vanish, lemma_mod_sub_multiples_vanish, lemma_mul_mod_noop_left,
    lemma_small_mod, lemma_sub_mod_noop,
};
use vstd::arithmetic::mul::{lemma_mul_nonnegative, lemma_mul_upper_bound};
use vstd::prelude::*;

use crate::vm::{
    emp, lemma_add, lemma_compose, lemma_div, lemma_dup, lemma_frame, lemma_fromalt,
    lemma_greatereq, lemma_if_add_const, lemma_if_over_zero, lemma_if_sub_const, lemma_lessthan,
    lemma_mul, lemma_pick, lemma_push, lemma_roll, lemma_rot, lemma_over, lemma_sub, lemma_swap,
    lemma_toalt, num_ok, runs_to, top1, top2, top3, top4, top5, top6, Fragment, Instr, Op, P,
};

verus! {

broadcast use vstd::seq_lib::group_seq_properties;

/// The field modulus as a mathematical integer.
pub open spec fn prime() -> int {
    P as int
}

/// Reduction modulo the field prime, into `[0, p)`.
pub open spec fn modp(x: int) -> int {
    x % (P as int)
}

/// Whether `x` is a canonical field element.
pub open spec fn is_m31(x: int) -> bool {
    0 <= x < prime()
}

/// Whether `x` is a negative (N31) representative.
pub open spec fn is_n31(x: int) -> bool {
    -prime() < x <= 0
}

/// The negative-range adjustment: subtract `p` from a nonnegative value.
pub open spec fn n31_adj(x: int) -> int {
    if x >= 0 {
        x - prime()
    } else {
        x
    }
}

/// The representative of `x` in `(-p, 0]` for `x` in `(-2p, 0]`.
pub open spec fn n31_rep(x: int) -> int {
    if x >= -prime() {
        x
    } else {
        x + prime()
    }
}

/// On `[-p, p)` the reduction just adds `p` to a negative value.
pub proof fn lemma_modp_small(x: int)
    requires
        -prime() <= x < prime(),
    ensures
        modp(x) == if x < 0 {
            x + prime()
        } else {
            x
        },
{
    if x >= 0 {
        lemma_small_mod(x as nat, prime() as nat);
    } else {
        lemma_mod_add_multiples_vanish(x, prime());
        lemma_small_mod((x + prime()) as nat, prime() as nat);
    }
}

/// Shifting by the prime does not change the residue.
pub proof fn lemma_modp_shift(x: int)
    ensures
        modp(x - prime()) == modp(x),
        modp(x + prime()) == modp(x),
{
    lemma_mod_sub_multiples_vanish(x, prime());
    lemma_mod_add_multiples_vanish(x, prime());
}

/// `x -> x - p`: move a canonical element to its negative representative.
pub fn m31_to_n31() -> (r: Fragment)
    ensures
        forall|x: int|
            num_ok(x) ==> #[trigger] runs_to(r@, top1(x), emp(), top1(x - prime()), emp()),
{
    let mut f = Fragment::new();
    f.op(Op::Push(P));
    f.op(Op::Sub);
    proof {
        let a = seq![Instr::Op(Op::Push(P))];
        let b = seq![Instr::Op(Op::Sub)];
        assert(f@ =~= a + b);
        assert forall|x: int|
            num_ok(x) implies #[trigger] runs_to(f@, top1(x), emp(), top1(x - prime()), emp()) by {
            lemma_push(P);
            lemma_frame(a, emp(), emp(), top1(P as int), emp(), top1(x), emp());
            assert(top1(x) + emp() =~= top1(x));
            assert(top1(x) + top1(P as int) =~= top2(x, P as int));
            assert(emp() + emp() =~= emp());
            lemma_sub(x, P as int);
            lemma_compose(a, b, top1(x), emp(), top2(x, P as int), emp(), top1(x - prime()), emp());
        }
    }
    f
}

/// `x -> x + p`: move a negative representative back to canonical form.
pub fn n31_to_m31() -> (r: Fragment)
    ensures
        forall|x: int|
            num_ok(x) ==> #[trigger] runs_to(r@, top1(x), emp(), top1(x + prime()), emp()),
{
    let mut f = Fragment::new();
    f.op(Op::Push(P));
    f.op(Op::Add);
    proof {
        let a = seq![Instr::Op(Op::Push(P))];
        let b = seq![Instr::Op(Op::Add)];
        assert(f@ =~= a + b);
        assert forall|x: int|
            num_ok(x) implies #[trigger] runs_to(f@, top1(x), emp(), top1(x + prime()), emp()) by {
            lemma_push(P);
            lemma_frame(a, emp(), emp(), top1(P as int), emp(), top1(x), emp());
            assert(top1(x) + emp() =~= top1(x));
            assert(top1(x) + top1(P as int) =~= top2(x, P as int));
            assert(emp() + emp() =~= emp());
            lemma_add(x, P as int);
            lemma_compose(a, b, top1(x), emp(), top2(x, P as int), emp(), top1(x + prime()), emp());
        }
    }
    f
}

/// `x -> if x < 0 then x + p else x`, canonicalizing any value in
/// `[-p, p)`.
fn m31_adjust() -> (r: Fragment)
    ensures
        forall|x: int|
            -prime() <= x < prime() ==> #[trigger] runs_to(
                r@,
                top1(x),
                emp(),
                top1(modp(x)),
                emp(),
            ),
{
    let mut f = Fragment::new();
    f.op(Op::Dup);
    f.op(Op::Push(0));
    f.op(Op::LessThan);
    let mut t: Vec<Op> = Vec::new();
    t.push(Op::Push(P));
    t.push(Op::Add);
    let e: Vec<Op> = Vec::new();
    proof {
        assert(t@ =~= seq![Op::Push(P), Op::Add]);
        assert(e@ =~= Seq::<Op>::empty());
    }
    let ghost gi = Instr::If(t, e);
    f.op_if(t, e);
    proof {
        let a = seq![Instr::Op(Op::Dup)];
        let b = seq![Instr::Op(Op::Push(0))];
        let c = seq![Instr::Op(Op::LessThan)];
        let d = seq![gi];
        assert(f@ =~= ((a + b) + c) + d);
        assert forall|x: int|
            -prime() <= x < prime() implies #[trigger] runs_to(
            f@,
            top1(x),
            emp(),
            top1(modp(x)),
            emp(),
        ) by {
            let cond: int = if x < 0 {
                1int
            } else {
                0int
            };
            lemma_dup(x);
            lemma_push(0);
            lemma_frame(b, emp(), emp(), top1(0), emp(), top2(x, x), emp());
            assert(top2(x, x) + emp() =~= top2(x, x));
            assert(top2(x, x) + top1(0) =~= top3(x, x, 0));
            assert(emp() + emp() =~= emp());
            lemma_compose(a, b, top1(x), emp(), top2(x, x), emp(), top3(x, x, 0), emp());
            lemma_lessthan(x, 0);
            lemma_frame(c, top2(x, 0), emp(), top1(cond), emp(), top1(x), emp());
            assert(top1(x) + top2(x, 0) =~= top3(x, x, 0));
            assert(top1(x) + top1(cond) =~= top2(x, cond));
            lemma_compose(a + b, c, top1(x), emp(), top3(x, x, 0), emp(), top2(x, cond), emp());
            lemma_if_add_const(gi, P, x, cond);
            lemma_compose(
                (a + b) + c,
                d,
                top1(x),
                emp(),
                top2(x, cond),
                emp(),
                top1(
                    if cond == 1 {
                        x + P
                    } else {
                        x
                    },
                ),
                emp(),
            );
            lemma_modp_small(x);
        }
    }
    f
}

/// `x -> if x >= 0 then x - p else x`, the negative-range counterpart of
/// the canonical adjustment, for any value in `(-p, p]`.
fn n31_adjust() -> (r: Fragment)
    ensures
        forall|x: int|
            -prime() < x <= prime() ==> #[trigger] runs_to(
                r@,
                top1(x),
                emp(),
                top1(n31_adj(x)),
                emp(),
            ),
{
    let mut f = Fragment::new();
    f.op(Op::Dup);
    f.op(Op::Push(0));
    f.op(Op::GreaterEq);
    let mut t: Vec<Op> = Vec::new();
    t.push(Op::Push(P));
    t.push(Op::Sub);
    let e: Vec<Op> = Vec::new();
    proof {
        assert(t@ =~= seq![Op::Push(P), Op::Sub]);
        assert(e@ =~= Seq::<Op>::empty());
    }
    let ghost gi = Instr::If(t, e);
    f.op_if(t, e);
    proof {
        let a = seq![Instr::Op(Op::Dup)];
        let b = seq![Instr::Op(Op::Push(0))];
        let c = seq![Instr::Op(Op::GreaterEq)];
        let d = seq![gi];
        assert(f@ =~= ((a + b) + c) + d);
        assert forall|x: int|
            -prime() < x <= prime() implies #[trigger] runs_to(
            f@,
            top1(x),
            emp(),
            top1(n31_adj(x)),
            emp(),
        ) by {
            let cond: int = if x >= 0 {
                1int
            } else {
                0int
            };
            lemma_dup(x);
            lemma_push(0);
            lemma_frame(b, emp(), emp(), top1(0), emp(), top2(x, x), emp());
            assert(top2(x, x) + emp() =~= top2(x, x));
            assert(top2(x, x) + top1(0) =~= top3(x, x, 0));
            assert(emp() + emp() =~= emp());
            lemma_compose(a, b, top1(x), emp(), top2(x, x), emp(), top3(x, x, 0), emp());
            lemma_greatereq(x, 0);
            lemma_frame(c, top2(x, 0), emp(), top1(cond), emp(), top1(x), emp());
            assert(top1(x) + top2(x, 0) =~= top3(x, x, 0));
            assert(top1(x) + top1(cond) =~= top2(x, cond));
            lemma_compose(a + b, c, top1(x), emp(), top3(x, x, 0), emp(), top2(x, cond), emp());
            lemma_if_sub_const(gi, P, x, cond);
            lemma_compose(
                (a + b) + c,
                d,
                top1(x),
                emp(),
                top2(x, cond),
                emp(),
                top1(
                    if cond == 1 {
                        x - P
                    } else {
                        x
                    },
                ),
                emp(),
            );
        }
    }
    f
}

/// Add a canonical element and a negative representative, leaving the
/// canonical sum.
pub fn m31_add_n31() -> (r: Fragment)
    ensures
        forall|x: int, y: int|
            is_m31(x) && -prime() <= y <= 0 ==> #[trigger] runs_to(
                r@,
                top2(x, y),
                emp(),
                top1(modp(x + y)),
                emp(),
            ),
{
    let mut f = Fragment::new();
    f.op(Op::Add);
    let g = m31_adjust();
    proof {
        let a = seq![Instr::Op(Op::Add)];
        assert(f@ =~= a);
    }
    f.splice(g);
    proof {
        let a = seq![Instr::Op(Op::Add)];
        assert(f@ =~= a + g@);
        assert forall|x: int, y: int|
            is_m31(x) && -prime() <= y <= 0 implies #[trigger] runs_to(
            f@,
            top2(x, y),
            emp(),
            top1(modp(x + y)),
            emp(),
        ) by {
            lemma_add(x, y);
            assert(runs_to(g@, top1(x + y), emp(), top1(modp(x + y)), emp()));
            lemma_compose(a, g@, top2(x, y), emp(), top1(x + y), emp(), top1(modp(x + y)), emp());
        }
    }
    f
}

/// Add a negative representative and a canonical element, leaving the
/// negative-range sum.
pub fn n31_add_m31() -> (r: Fragment)
    ensures
        forall|x: int, y: int|
            -prime() < x <= 0 && 0 <= y <= prime() ==> #[trigger] runs_to(
                r@,
                top2(x, y),
                emp(),
                top1(n31_adj(x + y)),
                emp(),
            ),
{
    let mut f = Fragment::new();
    f.op(Op::Add);
    let g = n31_adjust();
    f.splice(g);
    proof {
        let a = seq![Instr::Op(Op::Add)];
        assert(f@ =~= a + g@);
        assert forall|x: int, y: int|
            -prime() < x <= 0 && 0 <= y <= prime() implies #[trigger] runs_to(
            f@,
            top2(x, y),
            emp(),
            top1(n31_adj(x + y)),
            emp(),
        ) by {
            lemma_add(x, y);
            assert(runs_to(
                g@,
                top1(x + y),
                emp(),
                top1(n31_adj(x + y)),
                emp(),
            ));
            lemma_compose(
                a,
                g@,
                top2(x, y),
                emp(),
                top1(x + y),
                emp(),
                top1(n31_adj(x + y)),
                emp(),
            );
        }
    }
    f
}

/// Modular addition of two canonical elements: `a, b -> (a + b) mod p`.
pub fn m31_add() -> (r: Fragment)
    ensures
        forall|a: int, b: int|
            is_m31(a) && is_m31(b) ==> #[trigger] runs_to(
                r@,
                top2(a, b),
                emp(),
                top1(modp(a + b)),
                emp(),
            ),
{
    let mut f = Fragment::new();
    let g1 = m31_to_n31();
    let g2 = m31_add_n31();
    f.splice(g1);
    f.splice(g2);
    proof {
        assert(f@ =~= g1@ + g2@);
        assert forall|a: int, b: int|
            is_m31(a) && is_m31(b) implies #[trigger] runs_to(
            f@,
            top2(a, b),
            emp(),
            top1(modp(a + b)),
            emp(),
        ) by {
            assert(runs_to(g1@, top1(b), emp(), top1(b - prime()), emp()));
            lemma_frame(g1@, top1(b), emp(), top1(b - prime()), emp(), top1(a), emp());
            assert(top1(a) + top1(b) =~= top2(a, b));
            assert(top1(a) + top1(b - prime()) =~= top2(a, b - prime()));
            assert(emp() + emp() =~= emp());
            assert(runs_to(
                g2@,
                top2(a, b - prime()),
                emp(),
                top1(modp(a + (b - prime()))),
                emp(),
            ));
            lemma_compose(
                g1@,
                g2@,
                top2(a, b),
                emp(),
                top2(a, b - prime()),
                emp(),
                top1(modp(a + (b - prime()))),
                emp(),
            );
            lemma_modp_shift(a + b);
            assert(a + (b - prime()) == a + b - prime());
        }
    }
    f
}

/// Addition of two negative representatives, leaving the negative-range
/// sum.
pub fn n31_add() -> (r: Fragment)
    ensures
        forall|a: int, b: int|
            is_n31(a) && is_n31(b) ==> #[trigger] runs_to(
                r@,
                top2(a, b),
                emp(),
                top1(n31_rep(a + b)),
                emp(),
            ),
{
    let mut f = Fragment::new();
    let g1 = n31_to_m31();
    let g2 = n31_add_m31();
    f.splice(g1);
    f.splice(g2);
    proof {
        assert(f@ =~= g1@ + g2@);
        assert forall|a: int, b: int|
            is_n31(a) && is_n31(b) implies #[trigger] runs_to(
            f@,
            top2(a, b),
            emp(),
            top1(n31_rep(a + b)),
            emp(),
        ) by {
            assert(runs_to(g1@, top1(b), emp(), top1(b + prime()), emp()));
            lemma_frame(g1@, top1(b), emp(), top1(b + prime()), emp(), top1(a), emp());
            assert(top1(a) + top1(b) =~= top2(a, b));
            assert(top1(a) + top1(b + prime()) =~= top2(a, b + prime()));
            assert(emp() + emp() =~= emp());
            assert(runs_to(
                g2@,
                top2(a, b + prime()),
                emp(),
                top1(n31_adj(a + (b + prime()))),
                emp(),
            ));
            lemma_compose(
                g1@,
                g2@,
                top2(a, b),
                emp(),
                top2(a, b + prime()),
                emp(),
                top1(n31_adj(a + (b + prime()))),
                emp(),
            );
        }
    }
    f
}

/// Modular doubling of a canonical element: `a -> 2a mod p`.
pub fn m31_double() -> (r: Fragment)
    ensures
        forall|a: int|
            is_m31(a) ==> #[trigger] runs_to(r@, top1(a), emp(), top1(modp(2 * a)), emp()),
{
    let mut f = Fragment::new();
    f.op(Op::Dup);
    let g = m31_add();
    f.splice(g);
    proof {
        let d = seq![Instr::Op(Op::Dup)];
        assert(f@ =~= d + g@);
        assert forall|a: int|
            is_m31(a) implies #[trigger] runs_to(f@, top1(a), emp(), top1(modp(2 * a)), emp()) by {
            lemma_dup(a);
            assert(runs_to(g@, top2(a, a), emp(), top1(modp(a + a)), emp()));
            lemma_compose(d, g@, top1(a), emp(), top2(a, a), emp(), top1(modp(a + a)), emp());
            assert(a + a == 2 * a);
        }
    }
    f
}

/// Doubling of a negative representative, staying in the negative range.
pub fn n31_double() -> (r: Fragment)
    ensures
        forall|a: int|
            is_n31(a) ==> #[trigger] runs_to(
                r@,
                top1(a),
                emp(),
                top1(n31_rep(2 * a)),
                emp(),
            ),
{
    let mut f = Fragment::new();
    f.op(Op::Dup);
    let g = n31_add();
    f.splice(g);
    proof {
        let d = seq![Instr::Op(Op::Dup)];
        assert(f@ =~= d + g@);
        assert forall|a: int|
            is_n31(a) implies #[trigger] runs_to(
            f@,
            top1(a),
            emp(),
            top1(n31_rep(2 * a)),
            emp(),
        ) by {
            lemma_dup(a);
            assert(runs_to(
                g@,
                top2(a, a),
                emp(),
                top1(n31_rep(a + a)),
                emp(),
            ));
            lemma_compose(
                d,
                g@,
                top1(a),
                emp(),
                top2(a, a),
                emp(),
                top1(n31_rep(a + a)),
                emp(),
            );
            assert(a + a == 2 * a);
        }
    }
    f
}

/// Modular subtraction of two canonical elements: `a, b -> (a - b) mod p`.
pub fn m31_sub() -> (r: Fragment)
    ensures
        forall|a: int, b: int|
            is_m31(a) && is_m31(b) ==> #[trigger] runs_to(
                r@,
                top2(a, b),
                emp(),
                top1(modp(a - b)),
                emp(),
            ),
{
    let mut f = Fragment::new();
    f.op(Op::Sub);
    let g = m31_adjust();
    f.splice(g);
    proof {
        let s = seq![Instr::Op(Op::Sub)];
        assert(f@ =~= s + g@);
        assert forall|a: int, b: int|
            is_m31(a) && is_m31(b) implies #[trigger] runs_to(
            f@,
            top2(a, b),
            emp(),
            top1(modp(a - b)),
            emp(),
        ) by {
            lemma_sub(a, b);
            assert(runs_to(g@, top1(a - b), emp(), top1(modp(a - b)), emp()));
            lemma_compose(s, g@, top2(a, b), emp(), top1(a - b), emp(), top1(modp(a - b)), emp());
        }
    }
    f
}

/// Subtraction of two negative representatives, staying in the negative
/// range.
pub fn n31_sub() -> (r: Fragment)
    ensures
        forall|a: int, b: int|
            is_n31(a) && is_n31(b) ==> #[trigger] runs_to(
                r@,
                top2(a, b),
                emp(),
                top1(n31_adj(a - b)),
                emp(),
            ),
{
    let mut f = Fragment::new();
    f.op(Op::Sub);
    let g = n31_adjust();
    f.splice(g);
    proof {
        let s = seq![Instr::Op(Op::Sub)];
        assert(f@ =~= s + g@);
        assert forall|a: int, b: int|
            is_n31(a) && is_n31(b) implies #[trigger] runs_to(
            f@,
            top2(a, b),
            emp(),
            top1(n31_adj(a - b)),
            emp(),
        ) by {
            lemma_sub(a, b);
            assert(runs_to(
                g@,
                top1(a - b),
                emp(),
                top1(n31_adj(a - b)),
                emp(),
            ));
            lemma_compose(
                s,
                g@,
                top2(a, b),
                emp(),
                top1(a - b),
                emp(),
                top1(n31_adj(a - b)),
                emp(),
            );
        }
    }
    f
}

/// Negation of a canonical element: `a -> (p - a) mod p`, canonical.
pub fn m31_neg() -> (r: Fragment)
    ensures
        forall|a: int|
            is_m31(a) ==> #[trigger] runs_to(r@, top1(a), emp(), top1(modp(prime() - a)), emp()),
{
    let mut f = Fragment::new();
    f.op(Op::Push(0));
    f.op(Op::Swap);
    f.op(Op::Sub);
    let g = m31_adjust();
    f.splice(g);
    proof {
        let a1 = seq![Instr::Op(Op::Push(0))];
        let a2 = seq![Instr::Op(Op::Swap)];
        let a3 = seq![Instr::Op(Op::Sub)];
        assert(f@ =~= (((a1 + a2) + a3) + g@));
        assert forall|a: int|
            is_m31(a) implies #[trigger] runs_to(
            f@,
            top1(a),
            emp(),
            top1(modp(prime() - a)),
            emp(),
        ) by {
            lemma_push(0);
            lemma_frame(a1, emp(), emp(), top1(0), emp(), top1(a), emp());
            assert(top1(a) + emp() =~= top1(a));
            assert(top1(a) + top1(0) =~= top2(a, 0));
            assert(emp() + emp() =~= emp());
            lemma_swap(a, 0);
            lemma_compose(a1, a2, top1(a), emp(), top2(a, 0), emp(), top2(0, a), emp());
            lemma_sub(0, a);
            lemma_compose(a1 + a2, a3, top1(a), emp(), top2(0, a), emp(), top1(0 - a), emp());
            assert(runs_to(g@, top1(0 - a), emp(), top1(modp(0 - a)), emp()));
            lemma_compose(
                (a1 + a2) + a3,
                g@,
                top1(a),
                emp(),
                top1(0 - a),
                emp(),
                top1(modp(0 - a)),
                emp(),
            );
            lemma_modp_shift(-a);
            assert(modp(prime() - a) == modp(0 - a));
        }
    }
    f
}

/// Negation of a negative representative: `a -> -p - a`, staying in the
/// negative range for every nonzero input.
pub fn n31_neg() -> (r: Fragment)
    ensures
        forall|a: int|
            is_n31(a) ==> #[trigger] runs_to(r@, top1(a), emp(), top1(-prime() - a), emp()),
{
    let negp: i64 = -P;
    let mut f = Fragment::new();
    f.op(Op::Push(negp));
    f.op(Op::Swap);
    f.op(Op::Sub);
    proof {
        let a1 = seq![Instr::Op(Op::Push(negp))];
        let a2 = seq![Instr::Op(Op::Swap)];
        let a3 = seq![Instr::Op(Op::Sub)];
        assert(f@ =~= (a1 + a2) + a3);
        assert forall|a: int|
            is_n31(a) implies #[trigger] runs_to(f@, top1(a), emp(), top1(-prime() - a), emp()) by {
            lemma_push(negp);
            lemma_frame(a1, emp(), emp(), top1(negp as int), emp(), top1(a), emp());
            assert(top1(a) + emp() =~= top1(a));
            assert(top1(a) + top1(negp as int) =~= top2(a, negp as int));
            assert(emp() + emp() =~= emp());
            lemma_swap(a, negp as int);
            lemma_compose(
                a1,
                a2,
                top1(a),
                emp(),
                top2(a, negp as int),
                emp(),
                top2(negp as int, a),
                emp(),
            );
            lemma_sub(negp as int, a);
            lemma_compose(
                a1 + a2,
                a3,
                top1(a),
                emp(),
                top2(negp as int, a),
                emp(),
                top1(-prime() - a),
                emp(),
            );
        }
    }
    f
}

/// `x -> x / q, x mod q` for a positive unit `q`: the digit split used by
/// the multiplication kernel.
#[verifier::rlimit(80)]
fn split_unit(q: i64) -> (r: Fragment)
    requires
        1 <= q <= P,
    ensures
        forall|x: int|
            0 <= x <= (P as int) ==> #[trigger] runs_to(
                r@,
                top1(x),
                emp(),
                top2(x / (q as int), x % (q as int)),
                emp(),
            ),
{
    let mut f = Fragment::new();
    f.op(Op::Dup);
    f.op(Op::Push(q));
    f.op(Op::Div);
    f.op(Op::Dup);
    f.op(Op::Push(q));
    f.op(Op::Mul);
    f.op(Op::Rot);
    f.op(Op::Swap);
    f.op(Op::Sub);
    proof {
        let qi = q as int;
        let i1 = seq![Instr::Op(Op::Dup)];
        let i2 = seq![Instr::Op(Op::Push(q))];
        let i3 = seq![Instr::Op(Op::Div)];
        let i4 = seq![Instr::Op(Op::Dup)];
        let i5 = seq![Instr::Op(Op::Push(q))];
        let i6 = seq![Instr::Op(Op::Mul)];
        let i7 = seq![Instr::Op(Op::Rot)];
        let i8 = seq![Instr::Op(Op::Swap)];
        let i9 = seq![Instr::Op(Op::Sub)];
        assert(f@ =~= ((((((((i1 + i2) + i3) + i4) + i5) + i6) + i7) + i8) + i9));
        assert forall|x: int|
            0 <= x <= (P as int) implies #[trigger] runs_to(
            f@,
            top1(x),
            emp(),
            top2(x / (q as int), x % (q as int)),
            emp(),
        ) by {
            let xh = x / qi;
            let rm = x % qi;
            lemma_fundamental_div_mod(x, qi);
            lemma_mod_bound(x, qi);
            lemma_div_pos_is_pos(x, qi);
            lemma_div_nonincreasing(x, qi);
            let hq = xh * qi;
            assert(hq == x - rm);
            lemma_dup(x);
            lemma_push(q);
            lemma_frame(i2, emp(), emp(), top1(qi), emp(), top2(x, x), emp());
            assert(top2(x, x) + emp() =~= top2(x, x));
            assert(top2(x, x) + top1(qi) =~= top3(x, x, qi));
            assert(emp() + emp() =~= emp());
            lemma_compose(i1, i2, top1(x), emp(), top2(x, x), emp(), top3(x, x, qi), emp());
            lemma_div(x, qi);
            lemma_frame(i3, top2(x, qi), emp(), top1(xh), emp(), top1(x), emp());
            assert(top1(x) + top2(x, qi) =~= top3(x, x, qi));
            assert(top1(x) + top1(xh) =~= top2(x, xh));
            lemma_compose(i1 + i2, i3, top1(x), emp(), top3(x, x, qi), emp(), top2(x, xh), emp());
            lemma_dup(xh);
            lemma_frame(i4, top1(xh), emp(), top2(xh, xh), emp(), top1(x), emp());
            assert(top1(x) + top1(xh) =~= top2(x, xh));
            assert(top1(x) + top2(xh, xh) =~= top3(x, xh, xh));
            lemma_compose(
                (i1 + i2) + i3,
                i4,
                top1(x),
                emp(),
                top2(x, xh),
                emp(),
                top3(x, xh, xh),
                emp(),
            );
            lemma_push(q);
            lemma_frame(i5, emp(), emp(), top1(qi), emp(), top3(x, xh, xh), emp());
            assert(top3(x, xh, xh) + emp() =~= top3(x, xh, xh));
            assert(top3(x, xh, xh) + top1(qi) =~= top4(x, xh, xh, qi));
            lemma_compose(
                ((i1 + i2) + i3) + i4,
                i5,
                top1(x),
                emp(),
                top3(x, xh, xh),
                emp(),
                top4(x, xh, xh, qi),
                emp(),
            );
            lemma_mul(xh, qi);
            lemma_frame(i6, top2(xh, qi), emp(), top1(hq), emp(), top2(x, xh), emp());
            assert(top2(x, xh) + top2(xh, qi) =~= top4(x, xh, xh, qi));
            assert(top2(x, xh) + top1(hq) =~= top3(x, xh, hq));
            lemma_compose(
                (((i1 + i2) + i3) + i4) + i5,
                i6,
                top1(x),
                emp(),
                top4(x, xh, xh, qi),
                emp(),
                top3(x, xh, hq),
                emp(),
            );
            lemma_rot(x, xh, hq);
            lemma_compose(
                ((((i1 + i2) + i3) + i4) + i5) + i6,
                i7,
                top1(x),
                emp(),
                top3(x, xh, hq),
                emp(),
                top3(xh, hq, x),
                emp(),
            );
            lemma_swap(hq, x);
            lemma_frame(i8, top2(hq, x), emp(), top2(x, hq), emp(), top1(xh), emp());
            assert(top1(xh) + top2(hq, x) =~= top3(xh, hq, x));
            assert(top1(xh) + top2(x, hq) =~= top3(xh, x, hq));
            lemma_compose(
                (((((i1 + i2) + i3) + i4) + i5) + i6) + i7,
                i8,
                top1(x),
                emp(),
                top3(xh, hq, x),
                emp(),
                top3(xh, x, hq),
                emp(),
            );
            lemma_sub(x, hq);
            lemma_frame(i9, top2(x, hq), emp(), top1(x - hq), emp(), top1(xh), emp());
            assert(top1(xh) + top2(x, hq) =~= top3(xh, x, hq));
            assert(top1(xh) + top1(x - hq) =~= top2(xh, x - hq));
            lemma_compose(
                ((((((i1 + i2) + i3) + i4) + i5) + i6) + i7) + i8,
                i9,
                top1(x),
                emp(),
                top3(xh, x, hq),
                emp(),
                top2(xh, x - hq),
                emp(),
            );
            assert(x - hq == rm);
        }
    }
    f
}

/// Folding a reduced summand into an outer reduction.
pub proof fn lemma_modp_fold(x: int, y: int)
    ensures
        modp(modp(x) + y) == modp(x + y),
{
    lemma_add_mod_noop_right(y, x, prime());
}

/// The core identity of the multiplication kernel: with
/// `a = ah*2^15 + al` and `b = bh*2^16 + bl`, and `c` the reduced middle
/// term `(ah*bl + 2*al*bh) mod p` split as `c = ch*2^16 + cl`, the sum
/// `ch + cl*2^15 + al*bl + ah*bh` has the residue of `a * b`, because
/// `2^31 = p + 1`.
proof fn lemma_mul_reduction(ah: int, al: int, bh: int, bl: int, c: int, ch: int, cl: int)
    requires
        0 <= ah,
        0 <= al,
        0 <= bh,
        0 <= bl,
        c == modp(ah * bl + 2 * (al * bh)),
        ch == c / 0x10000,
        cl == c % 0x10000,
    ensures
        modp(ch + cl * 0x8000 + al * bl + ah * bh) == modp(
            (ah * 0x8000 + al) * (bh * 0x10000 + bl),
        ),
{
    let p = prime();
    let w = ah * bl + 2 * (al * bh);
    assert((ah * 0x8000 + al) * (bh * 0x10000 + bl) == 0x7fffffff * (ah * bh) + (ah * bh + (ah * bl
        + 2 * (al * bh)) * 0x8000 + al * bl)) by (nonlinear_arith);
    assert((ah * 0x8000 + al) * (bh * 0x10000 + bl) == p * (ah * bh) + (ah * bh + w * 0x8000 + al
        * bl));
    lemma_mod_multiples_vanish(ah * bh, ah * bh + w * 0x8000 + al * bl, p);
    assert(modp((ah * 0x8000 + al) * (bh * 0x10000 + bl)) == modp(
        ah * bh + w * 0x8000 + al * bl,
    ));
    // replace the middle term by its reduction
    lemma_mul_mod_noop_left(w, 0x8000, p);
    assert(modp(c * 0x8000) == modp(w * 0x8000));
    lemma_add_mod_noop_right(ah * bh + al * bl, w * 0x8000, p);
    lemma_add_mod_noop_right(ah * bh + al * bl, c * 0x8000, p);
    assert(modp(ah * bh + w * 0x8000 + al * bl) == modp(ah * bh + al * bl + c * 0x8000));
    // split `c` and fold `2^31` back to 1
    lemma_fundamental_div_mod(c, 0x10000);
    assert(c * 0x8000 == 0x7fffffff * ch + (ch + cl * 0x8000)) by (nonlinear_arith)
        requires
            c == 0x10000 * ch + cl,
    ;
    assert(c * 0x8000 == p * ch + (ch + cl * 0x8000));
    lemma_mod_multiples_vanish(ch, ah * bh + al * bl + ch + cl * 0x8000, p);
    assert(modp(ah * bh + al * bl + c * 0x8000) == modp(ah * bh + al * bl + ch + cl * 0x8000));
}

/// First stage of the multiplication kernel: swap the operands, split
/// both into their digit halves, and park `ah * bh` on the alt stack.
#[verifier::rlimit(100)]
proof fn lemma_mul_stage_a(
    gav: Seq<Instr>,
    gbv: Seq<Instr>,
    a: int,
    b: int,
    ah: int,
    al: int,
    bh: int,
    bl: int,
)
    requires
        runs_to(gav, top1(a), emp(), top2(ah, al), emp()),
        runs_to(gbv, top1(b), emp(), top2(bh, bl), emp()),
        num_ok(a),
        num_ok(b),
        0 <= ah <= 0xffff,
        0 <= al,
        0 <= bh <= 0x7fff,
        0 <= bl,
    ensures
        runs_to(
            ((((((seq![Instr::Op(Op::Swap)] + gav) + seq![Instr::Op(Op::Rot)]) + gbv) + seq![
                Instr::Op(Op::Push(3)),
                Instr::Op(Op::Pick),
            ]) + seq![Instr::Op(Op::Push(2)), Instr::Op(Op::Pick)]) + seq![Instr::Op(Op::Mul)])
                + seq![Instr::Op(Op::ToAlt)],
            top2(a, b),
            emp(),
            top4(ah, al, bh, bl),
            top1(ah * bh),
        ),
{
    let h = ah * bh;
    let t1 = seq![Instr::Op(Op::Swap)];
    let t2 = t1 + gav;
    let t3 = t2 + seq![Instr::Op(Op::Rot)];
    let t4 = t3 + gbv;
    let t5 = t4 + seq![Instr::Op(Op::Push(3)), Instr::Op(Op::Pick)];
    let t6 = t5 + seq![Instr::Op(Op::Push(2)), Instr::Op(Op::Pick)];
    let t7 = t6 + seq![Instr::Op(Op::Mul)];
    lemma_swap(a, b);
    lemma_frame(gav, top1(a), emp(), top2(ah, al), emp(), top1(b), emp());
    assert(top1(b) + top1(a) =~= top2(b, a));
    assert(top1(b) + top2(ah, al) =~= top3(b, ah, al));
    assert(emp() + emp() =~= emp());
    lemma_compose(t1, gav, top2(a, b), emp(), top2(b, a), emp(), top3(b, ah, al), emp());
    lemma_rot(b, ah, al);
    lemma_compose(
        t2,
        seq![Instr::Op(Op::Rot)],
        top2(a, b),
        emp(),
        top3(b, ah, al),
        emp(),
        top3(ah, al, b),
        emp(),
    );
    lemma_frame(gbv, top1(b), emp(), top2(bh, bl), emp(), top2(ah, al), emp());
    assert(top2(ah, al) + top1(b) =~= top3(ah, al, b));
    assert(top2(ah, al) + top2(bh, bl) =~= top4(ah, al, bh, bl));
    lemma_compose(t3, gbv, top2(a, b), emp(), top3(ah, al, b), emp(), top4(ah, al, bh, bl), emp());
    lemma_pick(top4(ah, al, bh, bl), 3);
    assert(top4(ah, al, bh, bl).push(ah) =~= top5(ah, al, bh, bl, ah));
    lemma_compose(
        t4,
        seq![Instr::Op(Op::Push(3)), Instr::Op(Op::Pick)],
        top2(a, b),
        emp(),
        top4(ah, al, bh, bl),
        emp(),
        top5(ah, al, bh, bl, ah),
        emp(),
    );
    lemma_pick(top5(ah, al, bh, bl, ah), 2);
    assert(top5(ah, al, bh, bl, ah).push(bh) =~= top6(ah, al, bh, bl, ah, bh));
    lemma_compose(
        t5,
        seq![Instr::Op(Op::Push(2)), Instr::Op(Op::Pick)],
        top2(a, b),
        emp(),
        top5(ah, al, bh, bl, ah),
        emp(),
        top6(ah, al, bh, bl, ah, bh),
        emp(),
    );
    lemma_mul(ah, bh);
    lemma_frame(seq![Instr::Op(Op::Mul)], top2(ah, bh), emp(), top1(h), emp(), top4(ah, al, bh, bl), emp());
    assert(top4(ah, al, bh, bl) + top2(ah, bh) =~= top6(ah, al, bh, bl, ah, bh));
    assert(top4(ah, al, bh, bl) + top1(h) =~= top5(ah, al, bh, bl, h));
    lemma_compose(
        t6,
        seq![Instr::Op(Op::Mul)],
        top2(a, b),
        emp(),
        top6(ah, al, bh, bl, ah, bh),
        emp(),
        top5(ah, al, bh, bl, h),
        emp(),
    );
    lemma_toalt(h);
    lemma_frame(seq![Instr::Op(Op::ToAlt)], top1(h), emp(), emp(), top1(h), top4(ah, al, bh, bl), emp());
    assert(top4(ah, al, bh, bl) + top1(h) =~= top5(ah, al, bh, bl, h));
    assert(top4(ah, al, bh, bl) + emp() =~= top4(ah, al, bh, bl));
    assert(emp() + top1(h) =~= top1(h));
    lemma_compose(
        t7,
        seq![Instr::Op(Op::ToAlt)],
        top2(a, b),
        emp(),
        top5(ah, al, bh, bl, h),
        emp(),
        top4(ah, al, bh, bl),
        top1(h),
    );
}

/// Second stage: compute and park `al * bl`, bring `ah` up, split it into
/// `2*ah2 + lsb`, and park the conditional copy of `bl`.
#[verifier::rlimit(100)]
proof fn lemma_mul_stage_b(
    acc: Seq<Instr>,
    gcv: Seq<Instr>,
    gi: Instr,
    pre0: Seq<int>,
    ah: int,
    al: int,
    bh: int,
    bl: int,
    h: int,
    ah2: int,
    lsb: int,
)
    requires
        runs_to(acc, pre0, emp(), top4(ah, al, bh, bl), top1(h)),
        runs_to(gcv, top1(ah), emp(), top2(ah2, lsb), emp()),
        (gi matches Instr::If(t, e) && t@ == seq![Op::Over] && e@ == seq![Op::Push(0)]),
        num_ok(al),
        num_ok(bl),
        lsb == 0 || lsb == 1,
    ensures
        runs_to(
            ((((((((acc + seq![Instr::Op(Op::Push(2)), Instr::Op(Op::Pick)]) + seq![
                Instr::Op(Op::Over),
            ]) + seq![Instr::Op(Op::Mul)]) + seq![Instr::Op(Op::ToAlt)]) + seq![
                Instr::Op(Op::Push(3)),
                Instr::Op(Op::Roll),
            ]) + gcv) + seq![gi]) + seq![Instr::Op(Op::ToAlt)]),
            pre0,
            emp(),
            top4(al, bh, bl, ah2),
            top3(
                h,
                al * bl,
                if lsb == 1 {
                    bl
                } else {
                    0int
                },
            ),
        ),
{
    let l = al * bl;
    let corr: int = if lsb == 1 {
        bl
    } else {
        0int
    };
    let t9 = acc + seq![Instr::Op(Op::Push(2)), Instr::Op(Op::Pick)];
    let t10 = t9 + seq![Instr::Op(Op::Over)];
    let t11 = t10 + seq![Instr::Op(Op::Mul)];
    let t12 = t11 + seq![Instr::Op(Op::ToAlt)];
    let t13 = t12 + seq![Instr::Op(Op::Push(3)), Instr::Op(Op::Roll)];
    let t14 = t13 + gcv;
    let t15 = t14 + seq![gi];
    lemma_pick(top4(ah, al, bh, bl), 2);
    lemma_frame(
        seq![Instr::Op(Op::Push(2)), Instr::Op(Op::Pick)],
        top4(ah, al, bh, bl),
        emp(),
        top4(ah, al, bh, bl).push(al),
        emp(),
        emp(),
        top1(h),
    );
    assert(emp() + top4(ah, al, bh, bl) =~= top4(ah, al, bh, bl));
    assert(top1(h) + emp() =~= top1(h));
    assert(emp() + top4(ah, al, bh, bl).push(al) =~= top5(ah, al, bh, bl, al));
    lemma_compose(
        acc,
        seq![Instr::Op(Op::Push(2)), Instr::Op(Op::Pick)],
        pre0,
        emp(),
        top4(ah, al, bh, bl),
        top1(h),
        top5(ah, al, bh, bl, al),
        top1(h),
    );
    lemma_over(bl, al);
    lemma_frame(seq![Instr::Op(Op::Over)], top2(bl, al), emp(), top3(bl, al, bl), emp(), top3(ah, al, bh), top1(h));
    assert(top3(ah, al, bh) + top2(bl, al) =~= top5(ah, al, bh, bl, al));
    assert(top3(ah, al, bh) + top3(bl, al, bl) =~= top6(ah, al, bh, bl, al, bl));
    assert(top1(h) + emp() =~= top1(h));
    lemma_compose(
        t9,
        seq![Instr::Op(Op::Over)],
        pre0,
        emp(),
        top5(ah, al, bh, bl, al),
        top1(h),
        top6(ah, al, bh, bl, al, bl),
        top1(h),
    );
    lemma_mul(al, bl);
    lemma_frame(seq![Instr::Op(Op::Mul)], top2(al, bl), emp(), top1(l), emp(), top4(ah, al, bh, bl), top1(h));
    assert(top4(ah, al, bh, bl) + top2(al, bl) =~= top6(ah, al, bh, bl, al, bl));
    assert(top4(ah, al, bh, bl) + top1(l) =~= top5(ah, al, bh, bl, l));
    lemma_compose(
        t10,
        seq![Instr::Op(Op::Mul)],
        pre0,
        emp(),
        top6(ah, al, bh, bl, al, bl),
        top1(h),
        top5(ah, al, bh, bl, l),
        top1(h),
    );
    lemma_toalt(l);
    lemma_frame(seq![Instr::Op(Op::ToAlt)], top1(l), emp(), emp(), top1(l), top4(ah, al, bh, bl), top1(h));
    assert(top4(ah, al, bh, bl) + top1(l) =~= top5(ah, al, bh, bl, l));
    assert(top4(ah, al, bh, bl) + emp() =~= top4(ah, al, bh, bl));
    assert(top1(h) + top1(l) =~= top2(h, l));
    assert(top1(h) + emp() =~= top1(h));
    lemma_compose(
        t11,
        seq![Instr::Op(Op::ToAlt)],
        pre0,
        emp(),
        top5(ah, al, bh, bl, l),
        top1(h),
        top4(ah, al, bh, bl),
        top2(h, l),
    );
    lemma_roll(top4(ah, al, bh, bl), 3);
    assert((top4(ah, al, bh, bl).take(0) + top4(ah, al, bh, bl).subrange(1, 4)).push(ah) =~= top4(
        al,
        bh,
        bl,
        ah,
    ));
    lemma_frame(
        seq![Instr::Op(Op::Push(3)), Instr::Op(Op::Roll)],
        top4(ah, al, bh, bl),
        emp(),
        top4(al, bh, bl, ah),
        emp(),
        emp(),
        top2(h, l),
    );
    assert(emp() + top4(ah, al, bh, bl) =~= top4(ah, al, bh, bl));
    assert(emp() + top4(al, bh, bl, ah) =~= top4(al, bh, bl, ah));
    assert(top2(h, l) + emp() =~= top2(h, l));
    lemma_compose(
        t12,
        seq![Instr::Op(Op::Push(3)), Instr::Op(Op::Roll)],
        pre0,
        emp(),
        top4(ah, al, bh, bl),
        top2(h, l),
        top4(al, bh, bl, ah),
        top2(h, l),
    );
    lemma_frame(gcv, top1(ah), emp(), top2(ah2, lsb), emp(), top3(al, bh, bl), top2(h, l));
    assert(top3(al, bh, bl) + top1(ah) =~= top4(al, bh, bl, ah));
    assert(top3(al, bh, bl) + top2(ah2, lsb) =~= top5(al, bh, bl, ah2, lsb));
    assert(top2(h, l) + emp() =~= top2(h, l));
    assert(emp() + emp() =~= emp());
    lemma_compose(
        t13,
        gcv,
        pre0,
        emp(),
        top4(al, bh, bl, ah),
        top2(h, l),
        top5(al, bh, bl, ah2, lsb),
        top2(h, l),
    );
    lemma_if_over_zero(gi, bl, ah2, lsb);
    lemma_frame(seq![gi], top3(bl, ah2, lsb), emp(), top3(bl, ah2, corr), emp(), top2(al, bh), top2(h, l));
    assert(top2(al, bh) + top3(bl, ah2, lsb) =~= top5(al, bh, bl, ah2, lsb));
    assert(top2(al, bh) + top3(bl, ah2, corr) =~= top5(al, bh, bl, ah2, corr));
    lemma_compose(
        t14,
        seq![gi],
        pre0,
        emp(),
        top5(al, bh, bl, ah2, lsb),
        top2(h, l),
        top5(al, bh, bl, ah2, corr),
        top2(h, l),
    );
    lemma_toalt(corr);
    lemma_frame(seq![Instr::Op(Op::ToAlt)], top1(corr), emp(), emp(), top1(corr), top4(al, bh, bl, ah2), top2(h, l));
    assert(top4(al, bh, bl, ah2) + top1(corr) =~= top5(al, bh, bl, ah2, corr));
    assert(top4(al, bh, bl, ah2) + emp() =~= top4(al, bh, bl, ah2));
    assert(top2(h, l) + top1(corr) =~= top3(h, l, corr));
    assert(top2(h, l) + emp() =~= top2(h, l));
    lemma_compose(
        t15,
        seq![Instr::Op(Op::ToAlt)],
        pre0,
        emp(),
        top5(al, bh, bl, ah2, corr),
        top2(h, l),
        top4(al, bh, bl, ah2),
        top3(h, l, corr),
    );
}

/// Third stage: form the reduced middle term
/// `c = (2*(bl*ah2) + 2*(al*bh) + corr) mod p`.
#[verifier::rlimit(100)]
proof fn lemma_mul_stage_c(
    acc: Seq<Instr>,
    gd1v: Seq<Instr>,
    gd2v: Seq<Instr>,
    gadd1v: Seq<Instr>,
    gadd2v: Seq<Instr>,
    pre0: Seq<int>,
    al: int,
    bh: int,
    bl: int,
    ah2: int,
    h: int,
    l: int,
    corr: int,
    d1: int,
    e1: int,
    s1v: int,
    cv: int,
)
    requires
        runs_to(acc, pre0, emp(), top4(al, bh, bl, ah2), top3(h, l, corr)),
        runs_to(gd1v, top1(bl * ah2), emp(), top1(d1), emp()),
        runs_to(gd2v, top1(al * bh), emp(), top1(e1), emp()),
        runs_to(gadd1v, top2(e1, d1), emp(), top1(s1v), emp()),
        runs_to(gadd2v, top2(s1v, corr), emp(), top1(cv), emp()),
        num_ok(al),
        num_ok(bh),
        num_ok(bl),
        num_ok(ah2),
    ensures
        runs_to(
            ((((((((acc + seq![Instr::Op(Op::Mul)]) + gd1v) + seq![Instr::Op(Op::ToAlt)]) + seq![
                Instr::Op(Op::Mul),
            ]) + gd2v) + seq![Instr::Op(Op::FromAlt)]) + gadd1v) + seq![Instr::Op(Op::FromAlt)])
                + gadd2v,
            pre0,
            emp(),
            top1(cv),
            top2(h, l),
        ),
{
    let blah2 = bl * ah2;
    let albh = al * bh;
    let t17 = acc + seq![Instr::Op(Op::Mul)];
    let t18 = t17 + gd1v;
    let t19 = t18 + seq![Instr::Op(Op::ToAlt)];
    let t20 = t19 + seq![Instr::Op(Op::Mul)];
    let t21 = t20 + gd2v;
    let t22 = t21 + seq![Instr::Op(Op::FromAlt)];
    let t23 = t22 + gadd1v;
    let t24 = t23 + seq![Instr::Op(Op::FromAlt)];
    lemma_mul(bl, ah2);
    lemma_frame(seq![Instr::Op(Op::Mul)], top2(bl, ah2), emp(), top1(blah2), emp(), top2(al, bh), top3(h, l, corr));
    assert(top2(al, bh) + top2(bl, ah2) =~= top4(al, bh, bl, ah2));
    assert(top2(al, bh) + top1(blah2) =~= top3(al, bh, blah2));
    assert(top3(h, l, corr) + emp() =~= top3(h, l, corr));
    lemma_compose(
        acc,
        seq![Instr::Op(Op::Mul)],
        pre0,
        emp(),
        top4(al, bh, bl, ah2),
        top3(h, l, corr),
        top3(al, bh, blah2),
        top3(h, l, corr),
    );
    lemma_frame(gd1v, top1(blah2), emp(), top1(d1), emp(), top2(al, bh), top3(h, l, corr));
    assert(top2(al, bh) + top1(blah2) =~= top3(al, bh, blah2));
    assert(top2(al, bh) + top1(d1) =~= top3(al, bh, d1));
    assert(emp() + emp() =~= emp());
    lemma_compose(
        t17,
        gd1v,
        pre0,
        emp(),
        top3(al, bh, blah2),
        top3(h, l, corr),
        top3(al, bh, d1),
        top3(h, l, corr),
    );
    lemma_toalt(d1);
    lemma_frame(seq![Instr::Op(Op::ToAlt)], top1(d1), emp(), emp(), top1(d1), top2(al, bh), top3(h, l, corr));
    assert(top2(al, bh) + top1(d1) =~= top3(al, bh, d1));
    assert(top2(al, bh) + emp() =~= top2(al, bh));
    assert(top3(h, l, corr) + top1(d1) =~= top4(h, l, corr, d1));
    assert(top3(h, l, corr) + emp() =~= top3(h, l, corr));
    lemma_compose(
        t18,
        seq![Instr::Op(Op::ToAlt)],
        pre0,
        emp(),
        top3(al, bh, d1),
        top3(h, l, corr),
        top2(al, bh),
        top4(h, l, corr, d1),
    );
    lemma_mul(al, bh);
    lemma_frame(seq![Instr::Op(Op::Mul)], top2(al, bh), emp(), top1(albh), emp(), emp(), top4(h, l, corr, d1));
    assert(emp() + top2(al, bh) =~= top2(al, bh));
    assert(emp() + top1(albh) =~= top1(albh));
    assert(top4(h, l, corr, d1) + emp() =~= top4(h, l, corr, d1));
    lemma_compose(
        t19,
        seq![Instr::Op(Op::Mul)],
        pre0,
        emp(),
        top2(al, bh),
        top4(h, l, corr, d1),
        top1(albh),
        top4(h, l, corr, d1),
    );
    lemma_frame(gd2v, top1(albh), emp(), top1(e1), emp(), emp(), top4(h, l, corr, d1));
    assert(emp() + top1(albh) =~= top1(albh));
    assert(emp() + top1(e1) =~= top1(e1));
    lemma_compose(
        t20,
        gd2v,
        pre0,
        emp(),
        top1(albh),
        top4(h, l, corr, d1),
        top1(e1),
        top4(h, l, corr, d1),
    );
    lemma_fromalt(d1);
    lemma_frame(seq![Instr::Op(Op::FromAlt)], emp(), top1(d1), top1(d1), emp(), top1(e1), top3(h, l, corr));
    assert(top1(e1) + emp() =~= top1(e1));
    assert(top3(h, l, corr) + top1(d1) =~= top4(h, l, corr, d1));
    assert(top1(e1) + top1(d1) =~= top2(e1, d1));
    assert(top3(h, l, corr) + emp() =~= top3(h, l, corr));
    lemma_compose(
        t21,
        seq![Instr::Op(Op::FromAlt)],
        pre0,
        emp(),
        top1(e1),
        top4(h, l, corr, d1),
        top2(e1, d1),
        top3(h, l, corr),
    );
    lemma_frame(gadd1v, top2(e1, d1), emp(), top1(s1v), emp(), emp(), top3(h, l, corr));
    assert(emp() + top2(e1, d1) =~= top2(e1, d1));
    assert(emp() + top1(s1v) =~= top1(s1v));
    lemma_compose(
        t22,
        gadd1v,
        pre0,
        emp(),
        top2(e1, d1),
        top3(h, l, corr),
        top1(s1v),
        top3(h, l, corr),
    );
    lemma_fromalt(corr);
    lemma_frame(seq![Instr::Op(Op::FromAlt)], emp(), top1(corr), top1(corr), emp(), top1(s1v), top2(h, l));
    assert(top1(s1v) + emp() =~= top1(s1v));
    assert(top2(h, l) + top1(corr) =~= top3(h, l, corr));
    assert(top1(s1v) + top1(corr) =~= top2(s1v, corr));
    assert(top2(h, l) + emp() =~= top2(h, l));
    lemma_compose(
        t23,
        seq![Instr::Op(Op::FromAlt)],
        pre0,
        emp(),
        top1(s1v),
        top3(h, l, corr),
        top2(s1v, corr),
        top2(h, l),
    );
    lemma_frame(gadd2v, top2(s1v, corr), emp(), top1(cv), emp(), emp(), top2(h, l));
    assert(emp() + top2(s1v, corr) =~= top2(s1v, corr));
    assert(emp() + top1(cv) =~= top1(cv));
    lemma_compose(
        t24,
        gadd2v,
        pre0,
        emp(),
        top2(s1v, corr),
        top2(h, l),
        top1(cv),
        top2(h, l),
    );
}

/// Fourth stage: split the middle term, multiply its low half by `2^15`,
/// and fold in the parked products.
#[verifier::rlimit(100)]
proof fn lemma_mul_stage_d(
    acc: Seq<Instr>,
    gscv: Seq<Instr>,
    gadd3v: Seq<Instr>,
    gadd4v: Seq<Instr>,
    gadd5v: Seq<Instr>,
    pre0: Seq<int>,
    h: int,
    l: int,
    cv: int,
    ch: int,
    cl: int,
    m2: int,
    m3: int,
    res: int,
)
    requires
        runs_to(acc, pre0, emp(), top1(cv), top2(h, l)),
        runs_to(gscv, top1(cv), emp(), top2(ch, cl), emp()),
        runs_to(gadd3v, top2(ch, cl * 0x8000), emp(), top1(m2), emp()),
        runs_to(gadd4v, top2(m2, l), emp(), top1(m3), emp()),
        runs_to(gadd5v, top2(m3, h), emp(), top1(res), emp()),
        num_ok(cl),
    ensures
        runs_to(
            ((((((acc + gscv) + seq![Instr::Op(Op::Push(0x8000))]) + seq![Instr::Op(Op::Mul)])
                + gadd3v) + seq![Instr::Op(Op::FromAlt)]) + gadd4v) + seq![
                Instr::Op(Op::FromAlt),
            ] + gadd5v,
            pre0,
            emp(),
            top1(res),
            emp(),
        ),
{
    let m1 = cl * 0x8000;
    let t26 = acc + gscv;
    let t27 = t26 + seq![Instr::Op(Op::Push(0x8000))];
    let t28 = t27 + seq![Instr::Op(Op::Mul)];
    let t29 = t28 + gadd3v;
    let t30 = t29 + seq![Instr::Op(Op::FromAlt)];
    let t31 = t30 + gadd4v;
    let t32 = t31 + seq![Instr::Op(Op::FromAlt)];
    lemma_frame(gscv, top1(cv), emp(), top2(ch, cl), emp(), emp(), top2(h, l));
    assert(emp() + top1(cv) =~= top1(cv));
    assert(emp() + top2(ch, cl) =~= top2(ch, cl));
    assert(top2(h, l) + emp() =~= top2(h, l));
    lemma_compose(acc, gscv, pre0, emp(), top1(cv), top2(h, l), top2(ch, cl), top2(h, l));
    lemma_push(0x8000);
    lemma_frame(seq![Instr::Op(Op::Push(0x8000))], emp(), emp(), top1(0x8000), emp(), top2(ch, cl), top2(h, l));
    assert(top2(ch, cl) + emp() =~= top2(ch, cl));
    assert(top2(ch, cl) + top1(0x8000) =~= top3(ch, cl, 0x8000));
    lemma_compose(
        t26,
        seq![Instr::Op(Op::Push(0x8000))],
        pre0,
        emp(),
        top2(ch, cl),
        top2(h, l),
        top3(ch, cl, 0x8000),
        top2(h, l),
    );
    lemma_mul(cl, 0x8000);
    lemma_frame(seq![Instr::Op(Op::Mul)], top2(cl, 0x8000), emp(), top1(m1), emp(), top1(ch), top2(h, l));
    assert(top1(ch) + top2(cl, 0x8000) =~= top3(ch, cl, 0x8000));
    assert(top1(ch) + top1(m1) =~= top2(ch, m1));
    lemma_compose(
        t27,
        seq![Instr::Op(Op::Mul)],
        pre0,
        emp(),
        top3(ch, cl, 0x8000),
        top2(h, l),
        top2(ch, m1),
        top2(h, l),
    );
    lemma_frame(gadd3v, top2(ch, m1), emp(), top1(m2), emp(), emp(), top2(h, l));
    assert(emp() + top2(ch, m1) =~= top2(ch, m1));
    assert(emp() + top1(m2) =~= top1(m2));
    assert(emp() + emp() =~= emp());
    lemma_compose(t28, gadd3v, pre0, emp(), top2(ch, m1), top2(h, l), top1(m2), top2(h, l));
    lemma_fromalt(l);
    lemma_frame(seq![Instr::Op(Op::FromAlt)], emp(), top1(l), top1(l), emp(), top1(m2), top1(h));
    assert(top1(m2) + emp() =~= top1(m2));
    assert(top1(h) + top1(l) =~= top2(h, l));
    assert(top1(m2) + top1(l) =~= top2(m2, l));
    assert(top1(h) + emp() =~= top1(h));
    lemma_compose(
        t29,
        seq![Instr::Op(Op::FromAlt)],
        pre0,
        emp(),
        top1(m2),
        top2(h, l),
        top2(m2, l),
        top1(h),
    );
    lemma_frame(gadd4v, top2(m2, l), emp(), top1(m3), emp(), emp(), top1(h));
    assert(emp() + top2(m2, l) =~= top2(m2, l));
    assert(emp() + top1(m3) =~= top1(m3));
    assert(top1(h) + emp() =~= top1(h));
    lemma_compose(t30, gadd4v, pre0, emp(), top2(m2, l), top1(h), top1(m3), top1(h));
    lemma_fromalt(h);
    lemma_frame(seq![Instr::Op(Op::FromAlt)], emp(), top1(h), top1(h), emp(), top1(m3), emp());
    assert(top1(m3) + emp() =~= top1(m3));
    assert(emp() + top1(h) =~= top1(h));
    assert(top1(m3) + top1(h) =~= top2(m3, h));
    assert(emp() + emp() =~= emp());
    lemma_compose(
        t31,
        seq![Instr::Op(Op::FromAlt)],
        pre0,
        emp(),
        top1(m3),
        top1(h),
        top2(m3, h),
        emp(),
    );
    lemma_compose(t32, gadd5v, pre0, emp(), top2(m3, h), emp(), top1(res), emp());
    assert(((t32) + gadd5v) =~= ((((((acc + gscv) + seq![Instr::Op(Op::Push(0x8000))]) + seq![
        Instr::Op(Op::Mul),
    ]) + gadd3v) + seq![Instr::Op(Op::FromAlt)]) + gadd4v) + seq![Instr::Op(Op::FromAlt)]
        + gadd5v);
}

/// The operand stack after the first half of the multiplication kernel:
/// `al, bh, bl, ah'` (deepest first).
pub open spec fn mul_mid_stack(a: int, b: int) -> Seq<int> {
    top4(a % 0x8000, b / 0x10000, b % 0x10000, (a / 0x8000) / 2)
}

/// The alt stack after the first half of the multiplication kernel:
/// `ah*bh, al*bl, lsb*bl` (deepest first).
pub open spec fn mul_mid_alt(a: int, b: int) -> Seq<int> {
    top3(
        (a / 0x8000) * (b / 0x10000),
        (a % 0x8000) * (b % 0x10000),
        ((a / 0x8000) % 2) * (b % 0x10000),
    )
}

/// First half of the multiplication kernel: split both operands, park
/// `ah*bh`, `al*bl` and the conditional copy of `bl`.
#[verifier::rlimit(100)]
fn m31_mul_head() -> (r: Fragment)
    ensures
        forall|a: int, b: int|
            is_m31(a) && is_m31(b) ==> #[trigger] runs_to(
                r@,
                top2(a, b),
                emp(),
                mul_mid_stack(a, b),
                mul_mid_alt(a, b),
            ),
{
    let mut f = Fragment::new();
    f.op(Op::Swap);
    let ga = split_unit(0x8000);
    let ghost gav = ga@;
    f.splice(ga);
    f.op(Op::Rot);
    let gb = split_unit(0x10000);
    let ghost gbv = gb@;
    f.splice(gb);
    f.op(Op::Push(3));
    f.op(Op::Pick);
    f.op(Op::Push(2));
    f.op(Op::Pick);
    f.op(Op::Mul);
    f.op(Op::ToAlt);
    let ghost s8 = f@;
    f.op(Op::Push(2));
    f.op(Op::Pick);
    f.op(Op::Over);
    f.op(Op::Mul);
    f.op(Op::ToAlt);
    f.op(Op::Push(3));
    f.op(Op::Roll);
    let gc = split_unit(2);
    let ghost gcv = gc@;
    f.splice(gc);
    let mut t: Vec<Op> = Vec::new();
    t.push(Op::Over);
    let mut e: Vec<Op> = Vec::new();
    e.push(Op::Push(0));
    proof {
        assert(t@ =~= seq![Op::Over]);
        assert(e@ =~= seq![Op::Push(0)]);
    }
    let ghost gi = Instr::If(t, e);
    f.op_if(t, e);
    f.op(Op::ToAlt);
    proof {
        assert(s8 =~= ((((((seq![Instr::Op(Op::Swap)] + gav) + seq![Instr::Op(Op::Rot)]) + gbv)
            + seq![Instr::Op(Op::Push(3)), Instr::Op(Op::Pick)]) + seq![
            Instr::Op(Op::Push(2)),
            Instr::Op(Op::Pick),
        ]) + seq![Instr::Op(Op::Mul)]) + seq![Instr::Op(Op::ToAlt)]);
        assert(f@ =~= ((((((((s8 + seq![Instr::Op(Op::Push(2)), Instr::Op(Op::Pick)]) + seq![
            Instr::Op(Op::Over),
        ]) + seq![Instr::Op(Op::Mul)]) + seq![Instr::Op(Op::ToAlt)]) + seq![
            Instr::Op(Op::Push(3)),
            Instr::Op(Op::Roll),
        ]) + gcv) + seq![gi]) + seq![Instr::Op(Op::ToAlt)]));
        assert forall|a: int, b: int|
            is_m31(a) && is_m31(b) implies #[trigger] runs_to(
            f@,
            top2(a, b),
            emp(),
            mul_mid_stack(a, b),
            mul_mid_alt(a, b),
        ) by {
            let ah = a / 0x8000;
            let al = a % 0x8000;
            let bh = b / 0x10000;
            let bl = b % 0x10000;
            lemma_fundamental_div_mod(a, 0x8000);
            lemma_mod_bound(a, 0x8000);
            lemma_div_pos_is_pos(a, 0x8000);
            lemma_fundamental_div_mod(b, 0x10000);
            lemma_mod_bound(b, 0x10000);
            lemma_div_pos_is_pos(b, 0x10000);
            assert(ah < 0x10000) by (nonlinear_arith)
                requires
                    0x8000 * ah + al == a,
                    0 <= al,
                    a < 0x80000000,
            ;
            assert(bh < 0x8000) by (nonlinear_arith)
                requires
                    0x10000 * bh + bl == b,
                    0 <= bl,
                    b < 0x80000000,
            ;
            let ah2 = ah / 2;
            let lsb = ah % 2;
            lemma_fundamental_div_mod(ah, 2);
            lemma_mod_bound(ah, 2);
            lemma_div_pos_is_pos(ah, 2);
            assert(runs_to(gav, top1(a), emp(), top2(ah, al), emp()));
            assert(runs_to(gbv, top1(b), emp(), top2(bh, bl), emp()));
            lemma_mul_stage_a(gav, gbv, a, b, ah, al, bh, bl);
            assert(runs_to(s8, top2(a, b), emp(), top4(ah, al, bh, bl), top1(ah * bh)));
            assert(runs_to(gcv, top1(ah), emp(), top2(ah2, lsb), emp()));
            lemma_mul_stage_b(s8, gcv, gi, top2(a, b), ah, al, bh, bl, ah * bh, ah2, lsb);
            let corr: int = if lsb == 1 {
                bl
            } else {
                0int
            };
            assert(corr == lsb * bl);
            assert(top4(al, bh, bl, ah2) == mul_mid_stack(a, b));
            assert(top3(ah * bh, al * bl, corr) == mul_mid_alt(a, b));
        }
    }
    f
}

/// Modular multiplication of two canonical elements: `a, b -> (a * b) mod p`.
///
/// The machine's `Mul` must not overflow a four-byte script number, so the
/// kernel splits `a` into 16 high and 15 low bits and `b` into 15 high and
/// 16 low bits, keeps every partial product below `2^31`, and folds
/// `2^31 = p + 1` back into the sum. The high half of `a` is split once
/// more into `2*ah' + lsb` so that doubling `ah' * bl` cannot overflow
/// either; the lost `lsb * bl` is re-added from a parked copy.
#[verifier::rlimit(100)]
pub fn m31_mul() -> (r: Fragment)
    ensures
        forall|a: int, b: int|
            is_m31(a) && is_m31(b) ==> #[trigger] runs_to(
                r@,
                top2(a, b),
                emp(),
                top1(modp(a * b)),
                emp(),
            ),
{
    let mut f = Fragment::new();
    let gh = m31_mul_head();
    let ghost ghv = gh@;
    f.splice(gh);
    let ghost s16 = f@;
    f.op(Op::Mul);
    let gd1 = m31_double();
    let ghost gd1v = gd1@;
    f.splice(gd1);
    f.op(Op::ToAlt);
    f.op(Op::Mul);
    let gd2 = m31_double();
    let ghost gd2v = gd2@;
    f.splice(gd2);
    f.op(Op::FromAlt);
    let gadd1 = m31_add();
    let ghost gadd1v = gadd1@;
    f.splice(gadd1);
    f.op(Op::FromAlt);
    let gadd2 = m31_add();
    let ghost gadd2v = gadd2@;
    f.splice(gadd2);
    let ghost s25 = f@;
    let gsc = split_unit(0x10000);
    let ghost gscv = gsc@;
    f.splice(gsc);
    f.op(Op::Push(0x8000));
    f.op(Op::Mul);
    let gadd3 = m31_add();
    let ghost gadd3v = gadd3@;
    f.splice(gadd3);
    f.op(Op::FromAlt);
    let gadd4 = m31_add();
    let ghost gadd4v = gadd4@;
    f.splice(gadd4);
    f.op(Op::FromAlt);
    let gadd5 = m31_add();
    let ghost gadd5v = gadd5@;
    f.splice(gadd5);
    proof {
        assert(s25 =~= ((((((((s16 + seq![Instr::Op(Op::Mul)]) + gd1v) + seq![
            Instr::Op(Op::ToAlt),
        ]) + seq![Instr::Op(Op::Mul)]) + gd2v) + seq![Instr::Op(Op::FromAlt)]) + gadd1v) + seq![
            Instr::Op(Op::FromAlt),
        ]) + gadd2v);
        assert(f@ =~= ((((((s25 + gscv) + seq![Instr::Op(Op::Push(0x8000))]) + seq![
            Instr::Op(Op::Mul),
        ]) + gadd3v) + seq![Instr::Op(Op::FromAlt)]) + gadd4v) + seq![Instr::Op(Op::FromAlt)]
            + gadd5v);
        assert forall|a: int, b: int|
            is_m31(a) && is_m31(b) implies #[trigger] runs_to(
            f@,
            top2(a, b),
            emp(),
            top1(modp(a * b)),
            emp(),
        ) by {
            let p = prime();
            let ah = a / 0x8000;
            let al = a % 0x8000;
            let bh = b / 0x10000;
            let bl = b % 0x10000;
            lemma_fundamental_div_mod(a, 0x8000);
            lemma_mod_bound(a, 0x8000);
            lemma_div_pos_is_pos(a, 0x8000);
            lemma_fundamental_div_mod(b, 0x10000);
            lemma_mod_bound(b, 0x10000);
            lemma_div_pos_is_pos(b, 0x10000);
            assert(ah < 0x10000) by (nonlinear_arith)
                requires
                    0x8000 * ah + al == a,
                    0 <= al,
                    a < 0x80000000,
            ;
            assert(bh < 0x8000) by (nonlinear_arith)
                requires
                    0x10000 * bh + bl == b,
                    0 <= bl,
                    b < 0x80000000,
            ;
            let h = ah * bh;
            let l = al * bl;
            lemma_mul_nonnegative(ah, bh);
            lemma_mul_nonnegative(al, bl);
            lemma_mul_upper_bound(ah, 0xffff, bh, 0x7fff);
            lemma_mul_upper_bound(al, 0x7fff, bl, 0xffff);
            let ah2 = ah / 2;
            let lsb = ah % 2;
            lemma_fundamental_div_mod(ah, 2);
            lemma_mod_bound(ah, 2);
            lemma_div_pos_is_pos(ah, 2);
            let corr: int = if lsb == 1 {
                bl
            } else {
                0int
            };
            assert(corr == lsb * bl);
            let blah2 = bl * ah2;
            lemma_mul_nonnegative(bl, ah2);
            lemma_mul_upper_bound(bl, 0xffff, ah2, 0x7fff);
            let d1 = modp(2 * blah2);
            let albh = al * bh;
            lemma_mul_nonnegative(al, bh);
            lemma_mul_upper_bound(al, 0x7fff, bh, 0x7fff);
            let e1 = modp(2 * albh);
            let s1v = modp(e1 + d1);
            let cv = modp(s1v + corr);
            lemma_mod_bound(2 * blah2, p);
            lemma_mod_bound(2 * albh, p);
            lemma_mod_bound(e1 + d1, p);
            lemma_mod_bound(s1v + corr, p);
            let ch = cv / 0x10000;
            let cl = cv % 0x10000;
            lemma_fundamental_div_mod(cv, 0x10000);
            lemma_mod_bound(cv, 0x10000);
            lemma_div_pos_is_pos(cv, 0x10000);
            assert(ch < 0x8000) by (nonlinear_arith)
                requires
                    0x10000 * ch + cl == cv,
                    0 <= cl,
                    cv < 0x80000000,
            ;
            let m1 = cl * 0x8000;
            let m2 = modp(ch + m1);
            let m3 = modp(m2 + l);
            let res = modp(m3 + h);
            lemma_mod_bound(ch + m1, p);
            lemma_mod_bound(m2 + l, p);
            assert(runs_to(ghv, top2(a, b), emp(), mul_mid_stack(a, b), mul_mid_alt(a, b)));
            assert(mul_mid_stack(a, b) == top4(al, bh, bl, ah2));
            assert(mul_mid_alt(a, b) == top3(h, l, corr));
            assert(runs_to(s16, top2(a, b), emp(), top4(al, bh, bl, ah2), top3(h, l, corr)));
            assert(runs_to(gd1v, top1(blah2), emp(), top1(modp(2 * blah2)), emp()));
            assert(runs_to(gd2v, top1(albh), emp(), top1(modp(2 * albh)), emp()));
            assert(runs_to(gadd1v, top2(e1, d1), emp(), top1(modp(e1 + d1)), emp()));
            assert(runs_to(gadd2v, top2(s1v, corr), emp(), top1(modp(s1v + corr)), emp()));
            lemma_mul_stage_c(
                s16,
                gd1v,
                gd2v,
                gadd1v,
                gadd2v,
                top2(a, b),
                al,
                bh,
                bl,
                ah2,
                h,
                l,
                corr,
                d1,
                e1,
                s1v,
                cv,
            );
            assert(runs_to(s25, top2(a, b), emp(), top1(cv), top2(h, l)));
            assert(runs_to(gscv, top1(cv), emp(), top2(ch, cl), emp()));
            assert(runs_to(gadd3v, top2(ch, m1), emp(), top1(modp(ch + m1)), emp()));
            assert(runs_to(gadd4v, top2(m2, l), emp(), top1(modp(m2 + l)), emp()));
            assert(runs_to(gadd5v, top2(m3, h), emp(), top1(modp(m3 + h)), emp()));
            lemma_mul_stage_d(
                s25,
                gscv,
                gadd3v,
                gadd4v,
                gadd5v,
                top2(a, b),
                h,
                l,
                cv,
                ch,
                cl,
                m2,
                m3,
                res,
            );
            assert(runs_to(f@, top2(a, b), emp(), top1(res), emp()));
            lemma_modp_fold(e1 + d1, corr);
            lemma_modp_fold(2 * albh, d1);
            lemma_add_mod_noop_right(2 * albh, 2 * blah2, p);
            assert(cv == modp(2 * albh + 2 * blah2 + corr));
            if lsb == 1 {
                assert(2 * (bl * ah2) + bl == ah * bl) by (nonlinear_arith)
                    requires
                        ah == 2 * ah2 + 1,
                ;
            } else {
                assert(2 * (bl * ah2) == ah * bl) by (nonlinear_arith)
                    requires
                        ah == 2 * ah2,
                ;
            }
            assert(cv == modp(ah * bl + 2 * (al * bh)));
            lemma_mul_reduction(ah, al, bh, bl, cv, ch, cl);
            lemma_modp_fold(ch + m1, l);
            lemma_modp_fold(ch + m1 + l, h);
            assert(res == modp(ch + cl * 0x8000 + al * bl + ah * bh));
            assert((ah * 0x8000 + al) == a);
            assert((bh * 0x10000 + bl) == b);
            assert(res == modp(a * b));
        }
    }
    f
}

/// Composability of addition and subtraction: on canonical elements,
/// running the addition fragment on `a, b` and then the subtraction
/// fragment on the result and `b` restores `a`. By the two fragments'
/// contracts the stack then holds `((a + b) mod p - b) mod p`, and that
/// value is `a`.
pub proof fn lemma_add_sub_roundtrip(a: int, b: int)
    requires
        is_m31(a),
        is_m31(b),
    ensures
        modp(modp(a + b) - b) == a,
{
    lemma_sub_mod_noop(a + b, b, prime());
    lemma_small_mod(b as nat, prime() as nat);
    lemma_small_mod(a as nat, prime() as nat);
    assert(modp(modp(a + b) - modp(b)) == modp(a + b - b));
}

} // verus!
