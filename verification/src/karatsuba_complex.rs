//! The complex-extension product kernel: three base-field multiplications
//! give both components of a CM31 product, Karatsuba style.

use vstd::arithmetic::div_mod::{
    lemma_add_mod_noop, lemma_mul_mod_noop, lemma_sub_mod_noop, lemma_sub_mod_noop_right,
};
use vstd::prelude::*;

use crate::m31::{is_m31, m31_add, m31_mul, m31_sub, modp, prime};
use crate::vm::{
    emp, lemma_compose, lemma_dup, lemma_dup2, lemma_frame, lemma_fromalt, lemma_nil, lemma_over,
    lemma_pick, lemma_roll, lemma_rot, lemma_swap, lemma_toalt, runs_to, top1, top2, top3, top4,
    top5, top6, top8, Fragment, Instr, Op,
};

verus! {

broadcast use vstd::seq_lib::group_seq_properties;

/// First half of the kernel: park `a2*a1` and `b2*b1`, then reduce the
/// stack to the product of the two component sums.
#[verifier::rlimit(100)]
proof fn lemma_ks_head(
    gm1: Seq<Instr>,
    gm2: Seq<Instr>,
    ga1: Seq<Instr>,
    ga2: Seq<Instr>,
    gm3: Seq<Instr>,
    a1: int,
    b1: int,
    a2: int,
    b2: int,
    p1: int,
    p2: int,
    s1: int,
    s2: int,
    m: int,
)
    requires
        runs_to(gm1, top2(a2, a1), emp(), top1(p1), emp()),
        runs_to(gm2, top2(b2, b1), emp(), top1(p2), emp()),
        runs_to(ga1, top2(a2, b2), emp(), top1(s2), emp()),
        runs_to(ga2, top2(a1, b1), emp(), top1(s1), emp()),
        runs_to(gm3, top2(s1, s2), emp(), top1(m), emp()),
    ensures
        runs_to(
            (((((((((((seq![Instr::Op(Op::Over)] + seq![
                Instr::Op(Op::Push(4)),
                Instr::Op(Op::Pick),
            ]) + gm1) + seq![Instr::Op(Op::ToAlt)]) + seq![Instr::Op(Op::Dup)]) + seq![
                Instr::Op(Op::Push(3)),
                Instr::Op(Op::Pick),
            ]) + gm2) + seq![Instr::Op(Op::ToAlt)]) + ga1) + seq![Instr::Op(Op::ToAlt)]) + ga2)
                + seq![Instr::Op(Op::FromAlt)]) + gm3,
            top4(a1, b1, a2, b2),
            emp(),
            top1(m),
            top2(p1, p2),
        ),
{
    let t1 = seq![Instr::Op(Op::Over)];
    let t2 = t1 + seq![Instr::Op(Op::Push(4)), Instr::Op(Op::Pick)];
    let t3 = t2 + gm1;
    let t4 = t3 + seq![Instr::Op(Op::ToAlt)];
    let t5 = t4 + seq![Instr::Op(Op::Dup)];
    let t6 = t5 + seq![Instr::Op(Op::Push(3)), Instr::Op(Op::Pick)];
    let t7 = t6 + gm2;
    let t8 = t7 + seq![Instr::Op(Op::ToAlt)];
    let t9 = t8 + ga1;
    let t10 = t9 + seq![Instr::Op(Op::ToAlt)];
    let t11 = t10 + ga2;
    let t12 = t11 + seq![Instr::Op(Op::FromAlt)];
    lemma_over(a2, b2);
    lemma_frame(t1, top2(a2, b2), emp(), top3(a2, b2, a2), emp(), top2(a1, b1), emp());
    assert(top2(a1, b1) + top2(a2, b2) =~= top4(a1, b1, a2, b2));
    assert(top2(a1, b1) + top3(a2, b2, a2) =~= top5(a1, b1, a2, b2, a2));
    assert(emp() + emp() =~= emp());
    lemma_pick(top5(a1, b1, a2, b2, a2), 4);
    assert(top5(a1, b1, a2, b2, a2).push(a1) =~= top6(a1, b1, a2, b2, a2, a1));
    lemma_compose(
        t1,
        seq![Instr::Op(Op::Push(4)), Instr::Op(Op::Pick)],
        top4(a1, b1, a2, b2),
        emp(),
        top5(a1, b1, a2, b2, a2),
        emp(),
        top6(a1, b1, a2, b2, a2, a1),
        emp(),
    );
    lemma_frame(gm1, top2(a2, a1), emp(), top1(p1), emp(), top4(a1, b1, a2, b2), emp());
    assert(top4(a1, b1, a2, b2) + top2(a2, a1) =~= top6(a1, b1, a2, b2, a2, a1));
    assert(top4(a1, b1, a2, b2) + top1(p1) =~= top5(a1, b1, a2, b2, p1));
    lemma_compose(
        t2,
        gm1,
        top4(a1, b1, a2, b2),
        emp(),
        top6(a1, b1, a2, b2, a2, a1),
        emp(),
        top5(a1, b1, a2, b2, p1),
        emp(),
    );
    lemma_toalt(p1);
    lemma_frame(seq![Instr::Op(Op::ToAlt)], top1(p1), emp(), emp(), top1(p1), top4(a1, b1, a2, b2), emp());
    assert(top4(a1, b1, a2, b2) + top1(p1) =~= top5(a1, b1, a2, b2, p1));
    assert(top4(a1, b1, a2, b2) + emp() =~= top4(a1, b1, a2, b2));
    assert(emp() + top1(p1) =~= top1(p1));
    lemma_compose(
        t3,
        seq![Instr::Op(Op::ToAlt)],
        top4(a1, b1, a2, b2),
        emp(),
        top5(a1, b1, a2, b2, p1),
        emp(),
        top4(a1, b1, a2, b2),
        top1(p1),
    );
    lemma_dup(b2);
    lemma_frame(seq![Instr::Op(Op::Dup)], top1(b2), emp(), top2(b2, b2), emp(), top3(a1, b1, a2), top1(p1));
    assert(top3(a1, b1, a2) + top1(b2) =~= top4(a1, b1, a2, b2));
    assert(top3(a1, b1, a2) + top2(b2, b2) =~= top5(a1, b1, a2, b2, b2));
    assert(top1(p1) + emp() =~= top1(p1));
    lemma_compose(
        t4,
        seq![Instr::Op(Op::Dup)],
        top4(a1, b1, a2, b2),
        emp(),
        top4(a1, b1, a2, b2),
        top1(p1),
        top5(a1, b1, a2, b2, b2),
        top1(p1),
    );
    lemma_pick(top5(a1, b1, a2, b2, b2), 3);
    assert(top5(a1, b1, a2, b2, b2).push(b1) =~= top6(a1, b1, a2, b2, b2, b1));
    lemma_frame(
        seq![Instr::Op(Op::Push(3)), Instr::Op(Op::Pick)],
        top5(a1, b1, a2, b2, b2),
        emp(),
        top5(a1, b1, a2, b2, b2).push(b1),
        emp(),
        emp(),
        top1(p1),
    );
    assert(emp() + top5(a1, b1, a2, b2, b2) =~= top5(a1, b1, a2, b2, b2));
    assert(emp() + top5(a1, b1, a2, b2, b2).push(b1) =~= top6(a1, b1, a2, b2, b2, b1));
    lemma_compose(
        t5,
        seq![Instr::Op(Op::Push(3)), Instr::Op(Op::Pick)],
        top4(a1, b1, a2, b2),
        emp(),
        top5(a1, b1, a2, b2, b2),
        top1(p1),
        top6(a1, b1, a2, b2, b2, b1),
        top1(p1),
    );
    lemma_frame(gm2, top2(b2, b1), emp(), top1(p2), emp(), top4(a1, b1, a2, b2), top1(p1));
    assert(top4(a1, b1, a2, b2) + top2(b2, b1) =~= top6(a1, b1, a2, b2, b2, b1));
    assert(top4(a1, b1, a2, b2) + top1(p2) =~= top5(a1, b1, a2, b2, p2));
    lemma_compose(
        t6,
        gm2,
        top4(a1, b1, a2, b2),
        emp(),
        top6(a1, b1, a2, b2, b2, b1),
        top1(p1),
        top5(a1, b1, a2, b2, p2),
        top1(p1),
    );
    lemma_toalt(p2);
    lemma_frame(seq![Instr::Op(Op::ToAlt)], top1(p2), emp(), emp(), top1(p2), top4(a1, b1, a2, b2), top1(p1));
    assert(top4(a1, b1, a2, b2) + top1(p2) =~= top5(a1, b1, a2, b2, p2));
    assert(top4(a1, b1, a2, b2) + emp() =~= top4(a1, b1, a2, b2));
    assert(top1(p1) + top1(p2) =~= top2(p1, p2));
    assert(top1(p1) + emp() =~= top1(p1));
    lemma_compose(
        t7,
        seq![Instr::Op(Op::ToAlt)],
        top4(a1, b1, a2, b2),
        emp(),
        top5(a1, b1, a2, b2, p2),
        top1(p1),
        top4(a1, b1, a2, b2),
        top2(p1, p2),
    );
    lemma_frame(ga1, top2(a2, b2), emp(), top1(s2), emp(), top2(a1, b1), top2(p1, p2));
    assert(top2(a1, b1) + top2(a2, b2) =~= top4(a1, b1, a2, b2));
    assert(top2(a1, b1) + top1(s2) =~= top3(a1, b1, s2));
    assert(top2(p1, p2) + emp() =~= top2(p1, p2));
    lemma_compose(
        t8,
        ga1,
        top4(a1, b1, a2, b2),
        emp(),
        top4(a1, b1, a2, b2),
        top2(p1, p2),
        top3(a1, b1, s2),
        top2(p1, p2),
    );
    lemma_toalt(s2);
    lemma_frame(seq![Instr::Op(Op::ToAlt)], top1(s2), emp(), emp(), top1(s2), top2(a1, b1), top2(p1, p2));
    assert(top2(a1, b1) + top1(s2) =~= top3(a1, b1, s2));
    assert(top2(a1, b1) + emp() =~= top2(a1, b1));
    assert(top2(p1, p2) + top1(s2) =~= top3(p1, p2, s2));
    assert(top2(p1, p2) + emp() =~= top2(p1, p2));
    lemma_compose(
        t9,
        seq![Instr::Op(Op::ToAlt)],
        top4(a1, b1, a2, b2),
        emp(),
        top3(a1, b1, s2),
        top2(p1, p2),
        top2(a1, b1),
        top3(p1, p2, s2),
    );
    lemma_frame(ga2, top2(a1, b1), emp(), top1(s1), emp(), emp(), top3(p1, p2, s2));
    assert(emp() + top2(a1, b1) =~= top2(a1, b1));
    assert(emp() + top1(s1) =~= top1(s1));
    assert(top3(p1, p2, s2) + emp() =~= top3(p1, p2, s2));
    lemma_compose(
        t10,
        ga2,
        top4(a1, b1, a2, b2),
        emp(),
        top2(a1, b1),
        top3(p1, p2, s2),
        top1(s1),
        top3(p1, p2, s2),
    );
    lemma_fromalt(s2);
    lemma_frame(seq![Instr::Op(Op::FromAlt)], emp(), top1(s2), top1(s2), emp(), top1(s1), top2(p1, p2));
    assert(top1(s1) + emp() =~= top1(s1));
    assert(top2(p1, p2) + top1(s2) =~= top3(p1, p2, s2));
    assert(top1(s1) + top1(s2) =~= top2(s1, s2));
    assert(top2(p1, p2) + emp() =~= top2(p1, p2));
    lemma_compose(
        t11,
        seq![Instr::Op(Op::FromAlt)],
        top4(a1, b1, a2, b2),
        emp(),
        top1(s1),
        top3(p1, p2, s2),
        top2(s1, s2),
        top2(p1, p2),
    );
    lemma_frame(gm3, top2(s1, s2), emp(), top1(m), emp(), emp(), top2(p1, p2));
    assert(emp() + top2(s1, s2) =~= top2(s1, s2));
    assert(emp() + top1(m) =~= top1(m));
    assert(top2(p1, p2) + emp() =~= top2(p1, p2));
    lemma_compose(
        t12,
        gm3,
        top4(a1, b1, a2, b2),
        emp(),
        top2(s1, s2),
        top2(p1, p2),
        top1(m),
        top2(p1, p2),
    );
}

/// Second half of the kernel: retrieve the parked products and form the
/// two output components.
#[verifier::rlimit(100)]
proof fn lemma_ks_tail(
    acc: Seq<Instr>,
    ga3: Seq<Instr>,
    gs1: Seq<Instr>,
    gs2: Seq<Instr>,
    pre0: Seq<int>,
    p1: int,
    p2: int,
    m: int,
    q: int,
    cross: int,
    second: int,
)
    requires
        runs_to(acc, pre0, emp(), top1(m), top2(p1, p2)),
        runs_to(ga3, top2(p2, p1), emp(), top1(q), emp()),
        runs_to(gs1, top2(m, q), emp(), top1(cross), emp()),
        runs_to(gs2, top2(p2, p1), emp(), top1(second), emp()),
    ensures
        runs_to(
            ((((((((acc + seq![Instr::Op(Op::FromAlt)]) + seq![Instr::Op(Op::FromAlt)]) + seq![
                Instr::Op(Op::Dup2),
            ]) + ga3) + seq![Instr::Op(Op::Push(3)), Instr::Op(Op::Roll)]) + seq![
                Instr::Op(Op::Swap),
            ]) + gs1) + seq![Instr::Op(Op::ToAlt)]) + gs2 + seq![Instr::Op(Op::FromAlt)] + seq![
                Instr::Op(Op::Swap),
            ],
            pre0,
            emp(),
            top2(cross, second),
            emp(),
        ),
{
    let t13 = acc + seq![Instr::Op(Op::FromAlt)];
    let t14 = t13 + seq![Instr::Op(Op::FromAlt)];
    let t15 = t14 + seq![Instr::Op(Op::Dup2)];
    let t16 = t15 + ga3;
    let t17 = t16 + seq![Instr::Op(Op::Push(3)), Instr::Op(Op::Roll)];
    let t18 = t17 + seq![Instr::Op(Op::Swap)];
    let t19 = t18 + gs1;
    let t20 = t19 + seq![Instr::Op(Op::ToAlt)];
    let t21 = t20 + gs2;
    let t22 = t21 + seq![Instr::Op(Op::FromAlt)];
    lemma_fromalt(p2);
    lemma_frame(seq![Instr::Op(Op::FromAlt)], emp(), top1(p2), top1(p2), emp(), top1(m), top1(p1));
    assert(top1(m) + emp() =~= top1(m));
    assert(top1(p1) + top1(p2) =~= top2(p1, p2));
    assert(top1(m) + top1(p2) =~= top2(m, p2));
    assert(top1(p1) + emp() =~= top1(p1));
    lemma_compose(
        acc,
        seq![Instr::Op(Op::FromAlt)],
        pre0,
        emp(),
        top1(m),
        top2(p1, p2),
        top2(m, p2),
        top1(p1),
    );
    lemma_fromalt(p1);
    lemma_frame(seq![Instr::Op(Op::FromAlt)], emp(), top1(p1), top1(p1), emp(), top2(m, p2), emp());
    assert(top2(m, p2) + emp() =~= top2(m, p2));
    assert(emp() + top1(p1) =~= top1(p1));
    assert(top2(m, p2) + top1(p1) =~= top3(m, p2, p1));
    assert(emp() + emp() =~= emp());
    lemma_compose(
        t13,
        seq![Instr::Op(Op::FromAlt)],
        pre0,
        emp(),
        top2(m, p2),
        top1(p1),
        top3(m, p2, p1),
        emp(),
    );
    lemma_dup2(p2, p1);
    lemma_frame(seq![Instr::Op(Op::Dup2)], top2(p2, p1), emp(), top4(p2, p1, p2, p1), emp(), top1(m), emp());
    assert(top1(m) + top2(p2, p1) =~= top3(m, p2, p1));
    assert(top1(m) + top4(p2, p1, p2, p1) =~= top5(m, p2, p1, p2, p1));
    lemma_compose(
        t14,
        seq![Instr::Op(Op::Dup2)],
        pre0,
        emp(),
        top3(m, p2, p1),
        emp(),
        top5(m, p2, p1, p2, p1),
        emp(),
    );
    lemma_frame(ga3, top2(p2, p1), emp(), top1(q), emp(), top3(m, p2, p1), emp());
    assert(top3(m, p2, p1) + top2(p2, p1) =~= top5(m, p2, p1, p2, p1));
    assert(top3(m, p2, p1) + top1(q) =~= top4(m, p2, p1, q));
    lemma_compose(
        t15,
        ga3,
        pre0,
        emp(),
        top5(m, p2, p1, p2, p1),
        emp(),
        top4(m, p2, p1, q),
        emp(),
    );
    lemma_roll(top4(m, p2, p1, q), 3);
    assert((top4(m, p2, p1, q).take(0) + top4(m, p2, p1, q).subrange(1, 4)).push(m) =~= top4(
        p2,
        p1,
        q,
        m,
    ));
    lemma_compose(
        t16,
        seq![Instr::Op(Op::Push(3)), Instr::Op(Op::Roll)],
        pre0,
        emp(),
        top4(m, p2, p1, q),
        emp(),
        top4(p2, p1, q, m),
        emp(),
    );
    lemma_swap(q, m);
    lemma_frame(seq![Instr::Op(Op::Swap)], top2(q, m), emp(), top2(m, q), emp(), top2(p2, p1), emp());
    assert(top2(p2, p1) + top2(q, m) =~= top4(p2, p1, q, m));
    assert(top2(p2, p1) + top2(m, q) =~= top4(p2, p1, m, q));
    lemma_compose(
        t17,
        seq![Instr::Op(Op::Swap)],
        pre0,
        emp(),
        top4(p2, p1, q, m),
        emp(),
        top4(p2, p1, m, q),
        emp(),
    );
    lemma_frame(gs1, top2(m, q), emp(), top1(cross), emp(), top2(p2, p1), emp());
    assert(top2(p2, p1) + top2(m, q) =~= top4(p2, p1, m, q));
    assert(top2(p2, p1) + top1(cross) =~= top3(p2, p1, cross));
    lemma_compose(
        t18,
        gs1,
        pre0,
        emp(),
        top4(p2, p1, m, q),
        emp(),
        top3(p2, p1, cross),
        emp(),
    );
    lemma_toalt(cross);
    lemma_frame(seq![Instr::Op(Op::ToAlt)], top1(cross), emp(), emp(), top1(cross), top2(p2, p1), emp());
    assert(top2(p2, p1) + top1(cross) =~= top3(p2, p1, cross));
    assert(top2(p2, p1) + emp() =~= top2(p2, p1));
    assert(emp() + top1(cross) =~= top1(cross));
    lemma_compose(
        t19,
        seq![Instr::Op(Op::ToAlt)],
        pre0,
        emp(),
        top3(p2, p1, cross),
        emp(),
        top2(p2, p1),
        top1(cross),
    );
    lemma_frame(gs2, top2(p2, p1), emp(), top1(second), emp(), emp(), top1(cross));
    assert(emp() + top2(p2, p1) =~= top2(p2, p1));
    assert(emp() + top1(second) =~= top1(second));
    assert(top1(cross) + emp() =~= top1(cross));
    lemma_compose(
        t20,
        gs2,
        pre0,
        emp(),
        top2(p2, p1),
        top1(cross),
        top1(second),
        top1(cross),
    );
    lemma_fromalt(cross);
    lemma_frame(seq![Instr::Op(Op::FromAlt)], emp(), top1(cross), top1(cross), emp(), top1(second), emp());
    assert(top1(second) + emp() =~= top1(second));
    assert(emp() + top1(cross) =~= top1(cross));
    assert(top1(second) + top1(cross) =~= top2(second, cross));
    lemma_compose(
        t21,
        seq![Instr::Op(Op::FromAlt)],
        pre0,
        emp(),
        top1(second),
        top1(cross),
        top2(second, cross),
        emp(),
    );
    lemma_swap(second, cross);
    lemma_compose(
        t22,
        seq![Instr::Op(Op::Swap)],
        pre0,
        emp(),
        top2(second, cross),
        emp(),
        top2(cross, second),
        emp(),
    );
}

/// The two component sums of the product of two CM31 elements
/// `a1 + b1*i` and `a2 + b2*i` (each pair laid out imaginary-deeper):
/// consumes the four base elements and leaves, imaginary deeper,
/// `a1*b2 + a2*b1` and on top `b1*b2 - a1*a2`, both reduced: exactly the
/// imaginary and real components of the complex product, since
/// `i^2 = -1`.
#[verifier::rlimit(100)]
pub fn karatsuba_small() -> (r: Fragment)
    ensures
        forall|a1: int, b1: int, a2: int, b2: int|
            is_m31(a1) && is_m31(b1) && is_m31(a2) && is_m31(b2) ==> #[trigger] runs_to(
                r@,
                top4(a1, b1, a2, b2),
                emp(),
                top2(modp(a1 * b2 + a2 * b1), modp(b1 * b2 - a1 * a2)),
                emp(),
            ),
{
    let mut f = Fragment::new();
    f.op(Op::Over);
    f.op(Op::Push(4));
    f.op(Op::Pick);
    let gm1 = m31_mul();
    let ghost gm1v = gm1@;
    f.splice(gm1);
    f.op(Op::ToAlt);
    f.op(Op::Dup);
    f.op(Op::Push(3));
    f.op(Op::Pick);
    let gm2 = m31_mul();
    let ghost gm2v = gm2@;
    f.splice(gm2);
    f.op(Op::ToAlt);
    let ga1 = m31_add();
    let ghost ga1v = ga1@;
    f.splice(ga1);
    f.op(Op::ToAlt);
    let ga2 = m31_add();
    let ghost ga2v = ga2@;
    f.splice(ga2);
    f.op(Op::FromAlt);
    let gm3 = m31_mul();
    let ghost gm3v = gm3@;
    f.splice(gm3);
    let ghost s12 = f@;
    f.op(Op::FromAlt);
    f.op(Op::FromAlt);
    f.op(Op::Dup2);
    let ga3 = m31_add();
    let ghost ga3v = ga3@;
    f.splice(ga3);
    f.op(Op::Push(3));
    f.op(Op::Roll);
    f.op(Op::Swap);
    let gs1 = m31_sub();
    let ghost gs1v = gs1@;
    f.splice(gs1);
    f.op(Op::ToAlt);
    let gs2 = m31_sub();
    let ghost gs2v = gs2@;
    f.splice(gs2);
    f.op(Op::FromAlt);
    f.op(Op::Swap);
    proof {
        assert(s12 =~= (((((((((((seq![Instr::Op(Op::Over)] + seq![
            Instr::Op(Op::Push(4)),
            Instr::Op(Op::Pick),
        ]) + gm1v) + seq![Instr::Op(Op::ToAlt)]) + seq![Instr::Op(Op::Dup)]) + seq![
            Instr::Op(Op::Push(3)),
            Instr::Op(Op::Pick),
        ]) + gm2v) + seq![Instr::Op(Op::ToAlt)]) + ga1v) + seq![Instr::Op(Op::ToAlt)]) + ga2v)
            + seq![Instr::Op(Op::FromAlt)]) + gm3v);
        assert(f@ =~= ((((((((s12 + seq![Instr::Op(Op::FromAlt)]) + seq![
            Instr::Op(Op::FromAlt),
        ]) + seq![Instr::Op(Op::Dup2)]) + ga3v) + seq![
            Instr::Op(Op::Push(3)),
            Instr::Op(Op::Roll),
        ]) + seq![Instr::Op(Op::Swap)]) + gs1v) + seq![Instr::Op(Op::ToAlt)]) + gs2v + seq![
            Instr::Op(Op::FromAlt),
        ] + seq![Instr::Op(Op::Swap)]);
        assert forall|a1: int, b1: int, a2: int, b2: int|
            is_m31(a1) && is_m31(b1) && is_m31(a2) && is_m31(b2) implies #[trigger] runs_to(
            f@,
            top4(a1, b1, a2, b2),
            emp(),
            top2(modp(a1 * b2 + a2 * b1), modp(b1 * b2 - a1 * a2)),
            emp(),
        ) by {
            let pr = prime();
            let p1 = modp(a2 * a1);
            let p2 = modp(b2 * b1);
            let s2v = modp(a2 + b2);
            let s1v = modp(a1 + b1);
            let m = modp(s1v * s2v);
            let q = modp(p2 + p1);
            let cross = modp(m - q);
            let second = modp(p2 - p1);
            assert(runs_to(gm1v, top2(a2, a1), emp(), top1(modp(a2 * a1)), emp()));
            assert(runs_to(gm2v, top2(b2, b1), emp(), top1(modp(b2 * b1)), emp()));
            assert(runs_to(ga1v, top2(a2, b2), emp(), top1(modp(a2 + b2)), emp()));
            assert(runs_to(ga2v, top2(a1, b1), emp(), top1(modp(a1 + b1)), emp()));
            assert(runs_to(gm3v, top2(s1v, s2v), emp(), top1(modp(s1v * s2v)), emp()));
            lemma_ks_head(
                gm1v,
                gm2v,
                ga1v,
                ga2v,
                gm3v,
                a1,
                b1,
                a2,
                b2,
                p1,
                p2,
                s1v,
                s2v,
                m,
            );
            assert(runs_to(s12, top4(a1, b1, a2, b2), emp(), top1(m), top2(p1, p2)));
            assert(runs_to(ga3v, top2(p2, p1), emp(), top1(modp(p2 + p1)), emp()));
            assert(runs_to(gs1v, top2(m, q), emp(), top1(modp(m - q)), emp()));
            assert(runs_to(gs2v, top2(p2, p1), emp(), top1(modp(p2 - p1)), emp()));
            lemma_ks_tail(s12, ga3v, gs1v, gs2v, top4(a1, b1, a2, b2), p1, p2, m, q, cross, second);
            assert(runs_to(f@, top4(a1, b1, a2, b2), emp(), top2(cross, second), emp()));
            // the arithmetic: the Karatsuba identity modulo p
            lemma_mul_mod_noop(a1 + b1, a2 + b2, pr);
            assert(m == modp((a1 + b1) * (a2 + b2)));
            lemma_add_mod_noop(b2 * b1, a2 * a1, pr);
            assert(q == modp(b2 * b1 + a2 * a1));
            lemma_sub_mod_noop(m, q, pr);
            assert(cross == modp(modp(m) - modp(q)));
            assert(modp(m) == m && modp(q) == q);
            lemma_sub_mod_noop((a1 + b1) * (a2 + b2), b2 * b1 + a2 * a1, pr);
            assert(cross == modp((a1 + b1) * (a2 + b2) - (b2 * b1 + a2 * a1)));
            assert((a1 + b1) * (a2 + b2) - (b2 * b1 + a2 * a1) == a1 * b2 + a2 * b1) by (nonlinear_arith);
            lemma_sub_mod_noop(b2 * b1, a2 * a1, pr);
            assert(second == modp(b2 * b1 - a2 * a1));
            assert(b2 * b1 - a2 * a1 == b1 * b2 - a1 * a2) by (nonlinear_arith);
        }
    }
    f
}

/// Stage one of the three-way Karatsuba: copy the two high pairs and
/// multiply them, parking both components.
#[verifier::rlimit(100)]
proof fn lemma_kb_high(
    ks1: Seq<Instr>,
    a1: int, b1: int, c1: int, d1: int, a2: int, b2: int, c2: int, d2: int,
    g1i: int, g1r: int,
)
    requires
        runs_to(ks1, top4(a1, b1, a2, b2), emp(), top2(g1i, g1r), emp()),
    ensures
        runs_to(
            ((((((Seq::<Instr>::empty() + seq![Instr::Op(Op::Push(7)), Instr::Op(Op::Pick)])
                + seq![Instr::Op(Op::Push(7)), Instr::Op(Op::Pick)]) + seq![
                Instr::Op(Op::Push(5)),
                Instr::Op(Op::Pick),
            ]) + seq![Instr::Op(Op::Push(5)), Instr::Op(Op::Pick)]) + ks1) + seq![
                Instr::Op(Op::ToAlt),
            ]) + seq![Instr::Op(Op::ToAlt)],
            top8(a1, b1, c1, d1, a2, b2, c2, d2),
            emp(),
            top8(a1, b1, c1, d1, a2, b2, c2, d2),
            top2(g1r, g1i),
        ),
{
    let pre0 = top8(a1, b1, c1, d1, a2, b2, c2, d2);
    let p7 = seq![Instr::Op(Op::Push(7)), Instr::Op(Op::Pick)];
    let p5 = seq![Instr::Op(Op::Push(5)), Instr::Op(Op::Pick)];
    let ta = seq![Instr::Op(Op::ToAlt)];
    lemma_nil(pre0, emp());
    lemma_pick(pre0, 7);
    assert(pre0[pre0.len() - 1 - 7] == a1);
    lemma_compose(Seq::<Instr>::empty(), p7, pre0, emp(), pre0, emp(), pre0.push(a1), emp());
    let t1 = Seq::<Instr>::empty() + p7;
    lemma_pick(pre0.push(a1), 7);
    assert(pre0.push(a1)[pre0.push(a1).len() - 1 - 7] == b1);
    lemma_compose(t1, p7, pre0, emp(), pre0.push(a1), emp(), pre0.push(a1).push(b1), emp());
    let t2 = t1 + p7;
    lemma_pick(pre0.push(a1).push(b1), 5);
    assert(pre0.push(a1).push(b1)[pre0.push(a1).push(b1).len() - 1 - 5] == a2);
    lemma_compose(
        t2, p5, pre0, emp(), pre0.push(a1).push(b1), emp(), pre0.push(a1).push(b1).push(a2), emp(),
    );
    let t3 = t2 + p5;
    lemma_pick(pre0.push(a1).push(b1).push(a2), 5);
    assert(pre0.push(a1).push(b1).push(a2)[pre0.push(a1).push(b1).push(a2).len() - 1 - 5] == b2);
    lemma_compose(
        t3, p5, pre0, emp(), pre0.push(a1).push(b1).push(a2), emp(),
        pre0.push(a1).push(b1).push(a2).push(b2), emp(),
    );
    let t4 = t3 + p5;
    lemma_frame(ks1, top4(a1, b1, a2, b2), emp(), top2(g1i, g1r), emp(), pre0, emp());
    assert(pre0 + top4(a1, b1, a2, b2) =~= pre0.push(a1).push(b1).push(a2).push(b2));
    assert(emp() + emp() =~= emp());
    lemma_compose(
        t4, ks1, pre0, emp(), pre0.push(a1).push(b1).push(a2).push(b2), emp(),
        pre0 + top2(g1i, g1r), emp(),
    );
    let t5 = t4 + ks1;
    lemma_toalt(g1r);
    lemma_frame(ta, top1(g1r), emp(), emp(), top1(g1r), pre0 + top1(g1i), emp());
    assert((pre0 + top1(g1i)) + top1(g1r) =~= pre0 + top2(g1i, g1r));
    assert((pre0 + top1(g1i)) + emp() =~= pre0 + top1(g1i));
    assert(emp() + top1(g1r) =~= top1(g1r));
    lemma_compose(
        t5, ta, pre0, emp(), pre0 + top2(g1i, g1r), emp(), pre0 + top1(g1i), top1(g1r),
    );
    let t6 = t5 + ta;
    lemma_toalt(g1i);
    lemma_frame(ta, top1(g1i), emp(), emp(), top1(g1i), pre0, top1(g1r));
    assert(pre0 + top1(g1i) =~= pre0 + top1(g1i));
    assert(pre0 + emp() =~= pre0);
    assert(top1(g1r) + top1(g1i) =~= top2(g1r, g1i));
    assert(top1(g1r) + emp() =~= top1(g1r));
    lemma_compose(t6, ta, pre0, emp(), pre0 + top1(g1i), top1(g1r), pre0, top2(g1r, g1i));
}

/// Stage two: copy the two low pairs and multiply them, parking both
/// components above the high product.
#[verifier::rlimit(100)]
proof fn lemma_kb_low(
    acc: Seq<Instr>,
    ks2: Seq<Instr>,
    a1: int, b1: int, c1: int, d1: int, a2: int, b2: int, c2: int, d2: int,
    g1i: int, g1r: int, g3i: int, g3r: int,
)
    requires
        runs_to(
            acc,
            top8(a1, b1, c1, d1, a2, b2, c2, d2),
            emp(),
            top8(a1, b1, c1, d1, a2, b2, c2, d2),
            top2(g1r, g1i),
        ),
        runs_to(ks2, top4(c2, d2, c1, d1), emp(), top2(g3i, g3r), emp()),
    ensures
        runs_to(
            (((((acc + seq![Instr::Op(Op::Dup2)]) + seq![
                Instr::Op(Op::Push(7)),
                Instr::Op(Op::Pick),
            ]) + seq![Instr::Op(Op::Push(7)), Instr::Op(Op::Pick)]) + ks2) + seq![
                Instr::Op(Op::ToAlt),
            ]) + seq![Instr::Op(Op::ToAlt)],
            top8(a1, b1, c1, d1, a2, b2, c2, d2),
            emp(),
            top8(a1, b1, c1, d1, a2, b2, c2, d2),
            top4(g1r, g1i, g3r, g3i),
        ),
{
    let pre0 = top8(a1, b1, c1, d1, a2, b2, c2, d2);
    let p7 = seq![Instr::Op(Op::Push(7)), Instr::Op(Op::Pick)];
    let ta = seq![Instr::Op(Op::ToAlt)];
    lemma_dup2(c2, d2);
    lemma_frame(
        seq![Instr::Op(Op::Dup2)], top2(c2, d2), emp(), top4(c2, d2, c2, d2), emp(),
        top6(a1, b1, c1, d1, a2, b2), top2(g1r, g1i),
    );
    assert(top6(a1, b1, c1, d1, a2, b2) + top2(c2, d2) =~= pre0);
    assert(top6(a1, b1, c1, d1, a2, b2) + top4(c2, d2, c2, d2) =~= pre0 + top2(c2, d2));
    assert(top2(g1r, g1i) + emp() =~= top2(g1r, g1i));
    lemma_compose(
        acc, seq![Instr::Op(Op::Dup2)], pre0, emp(), pre0, top2(g1r, g1i),
        pre0 + top2(c2, d2), top2(g1r, g1i),
    );
    let t1 = acc + seq![Instr::Op(Op::Dup2)];
    lemma_pick(pre0 + top2(c2, d2), 7);
    assert((pre0 + top2(c2, d2))[(pre0 + top2(c2, d2)).len() - 1 - 7] == c1);
    lemma_frame(p7, pre0 + top2(c2, d2), emp(), (pre0 + top2(c2, d2)).push(c1), emp(), emp(), top2(g1r, g1i));
    assert(emp() + (pre0 + top2(c2, d2)) =~= pre0 + top2(c2, d2));
    assert(emp() + (pre0 + top2(c2, d2)).push(c1) =~= (pre0 + top2(c2, d2)).push(c1));
    lemma_compose(
        t1, p7, pre0, emp(), pre0 + top2(c2, d2), top2(g1r, g1i),
        (pre0 + top2(c2, d2)).push(c1), top2(g1r, g1i),
    );
    let t2 = t1 + p7;
    lemma_pick((pre0 + top2(c2, d2)).push(c1), 7);
    assert((pre0 + top2(c2, d2)).push(c1)[(pre0 + top2(c2, d2)).push(c1).len() - 1 - 7] == d1);
    lemma_frame(
        p7, (pre0 + top2(c2, d2)).push(c1), emp(), (pre0 + top2(c2, d2)).push(c1).push(d1),
        emp(), emp(), top2(g1r, g1i),
    );
    assert(emp() + (pre0 + top2(c2, d2)).push(c1) =~= (pre0 + top2(c2, d2)).push(c1));
    assert(emp() + (pre0 + top2(c2, d2)).push(c1).push(d1) =~= (pre0 + top2(c2, d2)).push(c1).push(
        d1,
    ));
    lemma_compose(
        t2, p7, pre0, emp(), (pre0 + top2(c2, d2)).push(c1), top2(g1r, g1i),
        (pre0 + top2(c2, d2)).push(c1).push(d1), top2(g1r, g1i),
    );
    let t3 = t2 + p7;
    lemma_frame(ks2, top4(c2, d2, c1, d1), emp(), top2(g3i, g3r), emp(), pre0, top2(g1r, g1i));
    assert(pre0 + top4(c2, d2, c1, d1) =~= (pre0 + top2(c2, d2)).push(c1).push(d1));
    assert(top2(g1r, g1i) + emp() =~= top2(g1r, g1i));
    lemma_compose(
        t3, ks2, pre0, emp(), (pre0 + top2(c2, d2)).push(c1).push(d1), top2(g1r, g1i),
        pre0 + top2(g3i, g3r), top2(g1r, g1i),
    );
    let t4 = t3 + ks2;
    lemma_toalt(g3r);
    lemma_frame(ta, top1(g3r), emp(), emp(), top1(g3r), pre0 + top1(g3i), top2(g1r, g1i));
    assert((pre0 + top1(g3i)) + top1(g3r) =~= pre0 + top2(g3i, g3r));
    assert((pre0 + top1(g3i)) + emp() =~= pre0 + top1(g3i));
    assert(top2(g1r, g1i) + top1(g3r) =~= top3(g1r, g1i, g3r));
    assert(top2(g1r, g1i) + emp() =~= top2(g1r, g1i));
    lemma_compose(
        t4, ta, pre0, emp(), pre0 + top2(g3i, g3r), top2(g1r, g1i),
        pre0 + top1(g3i), top3(g1r, g1i, g3r),
    );
    let t5 = t4 + ta;
    lemma_toalt(g3i);
    lemma_frame(ta, top1(g3i), emp(), emp(), top1(g3i), pre0, top3(g1r, g1i, g3r));
    assert(pre0 + emp() =~= pre0);
    assert(top3(g1r, g1i, g3r) + top1(g3i) =~= top4(g1r, g1i, g3r, g3i));
    assert(top3(g1r, g1i, g3r) + emp() =~= top3(g1r, g1i, g3r));
    lemma_compose(
        t5, ta, pre0, emp(), pre0 + top1(g3i), top3(g1r, g1i, g3r), pre0, top4(g1r, g1i, g3r, g3i),
    );
}

/// Stage three: form and park the component sums of the second operand.
#[verifier::rlimit(100)]
proof fn lemma_kb_sums2(
    acc: Seq<Instr>,
    ga1: Seq<Instr>,
    ga2: Seq<Instr>,
    pre0: Seq<int>,
    a1: int, b1: int, c1: int, d1: int, a2: int, b2: int, c2: int, d2: int,
    alt4: Seq<int>,
    sx: int, sy: int,
)
    requires
        runs_to(acc, pre0, emp(), top8(a1, b1, c1, d1, a2, b2, c2, d2), alt4),
        runs_to(ga1, top2(d2, b2), emp(), top1(sx), emp()),
        runs_to(ga2, top2(a2, c2), emp(), top1(sy), emp()),
    ensures
        runs_to(
            ((((acc + seq![Instr::Op(Op::Rot)]) + ga1) + seq![Instr::Op(Op::ToAlt)]) + ga2)
                + seq![Instr::Op(Op::ToAlt)],
            pre0,
            emp(),
            top4(a1, b1, c1, d1),
            (alt4 + top1(sx)) + top1(sy),
        ),
{
    let ta = seq![Instr::Op(Op::ToAlt)];
    lemma_rot(b2, c2, d2);
    lemma_frame(
        seq![Instr::Op(Op::Rot)], top3(b2, c2, d2), emp(), top3(c2, d2, b2), emp(),
        top5(a1, b1, c1, d1, a2), alt4,
    );
    assert(top5(a1, b1, c1, d1, a2) + top3(b2, c2, d2) =~= top8(a1, b1, c1, d1, a2, b2, c2, d2));
    assert(top5(a1, b1, c1, d1, a2) + top3(c2, d2, b2) =~= top6(a1, b1, c1, d1, a2, c2) + top2(
        d2,
        b2,
    ));
    assert(alt4 + emp() =~= alt4);
    lemma_compose(
        acc, seq![Instr::Op(Op::Rot)], pre0, emp(), top8(a1, b1, c1, d1, a2, b2, c2, d2), alt4,
        top6(a1, b1, c1, d1, a2, c2) + top2(d2, b2), alt4,
    );
    let t1 = acc + seq![Instr::Op(Op::Rot)];
    lemma_frame(ga1, top2(d2, b2), emp(), top1(sx), emp(), top6(a1, b1, c1, d1, a2, c2), alt4);
    lemma_compose(
        t1, ga1, pre0, emp(), top6(a1, b1, c1, d1, a2, c2) + top2(d2, b2), alt4,
        top6(a1, b1, c1, d1, a2, c2) + top1(sx), alt4,
    );
    let t2 = t1 + ga1;
    lemma_toalt(sx);
    lemma_frame(ta, top1(sx), emp(), emp(), top1(sx), top4(a1, b1, c1, d1) + top2(a2, c2), alt4);
    assert((top4(a1, b1, c1, d1) + top2(a2, c2)) + top1(sx) =~= top6(a1, b1, c1, d1, a2, c2)
        + top1(sx));
    assert((top4(a1, b1, c1, d1) + top2(a2, c2)) + emp() =~= top4(a1, b1, c1, d1) + top2(a2, c2));
    lemma_compose(
        t2, ta, pre0, emp(), top6(a1, b1, c1, d1, a2, c2) + top1(sx), alt4,
        top4(a1, b1, c1, d1) + top2(a2, c2), alt4 + top1(sx),
    );
    let t3 = t2 + ta;
    lemma_frame(ga2, top2(a2, c2), emp(), top1(sy), emp(), top4(a1, b1, c1, d1), alt4 + top1(sx));
    assert((alt4 + top1(sx)) + emp() =~= alt4 + top1(sx));
    lemma_compose(
        t3, ga2, pre0, emp(), top4(a1, b1, c1, d1) + top2(a2, c2), alt4 + top1(sx),
        top4(a1, b1, c1, d1) + top1(sy), alt4 + top1(sx),
    );
    let t4 = t3 + ga2;
    lemma_toalt(sy);
    lemma_frame(ta, top1(sy), emp(), emp(), top1(sy), top4(a1, b1, c1, d1), alt4 + top1(sx));
    assert(top4(a1, b1, c1, d1) + emp() =~= top4(a1, b1, c1, d1));
    lemma_compose(
        t4, ta, pre0, emp(), top4(a1, b1, c1, d1) + top1(sy), alt4 + top1(sx),
        top4(a1, b1, c1, d1), (alt4 + top1(sx)) + top1(sy),
    );
}

/// Stage four: form the component sums of the first operand and retrieve
/// all four parked sums.
#[verifier::rlimit(100)]
proof fn lemma_kb_sums1(
    acc: Seq<Instr>,
    ga3: Seq<Instr>,
    ga4: Seq<Instr>,
    pre0: Seq<int>,
    a1: int, b1: int, c1: int, d1: int,
    alt4: Seq<int>,
    sx: int, sy: int, su: int, sv: int,
)
    requires
        runs_to(acc, pre0, emp(), top4(a1, b1, c1, d1), (alt4 + top1(sx)) + top1(sy)),
        runs_to(ga3, top2(d1, b1), emp(), top1(su), emp()),
        runs_to(ga4, top2(a1, c1), emp(), top1(sv), emp()),
    ensures
        runs_to(
            ((((((acc + seq![Instr::Op(Op::Rot)]) + ga3) + seq![Instr::Op(Op::ToAlt)]) + ga4)
                + seq![Instr::Op(Op::FromAlt)]) + seq![Instr::Op(Op::FromAlt)]) + seq![
                Instr::Op(Op::FromAlt),
            ],
            pre0,
            emp(),
            top4(sv, su, sy, sx),
            alt4,
        ),
{
    let ta = seq![Instr::Op(Op::ToAlt)];
    let fa = seq![Instr::Op(Op::FromAlt)];
    let alt6 = (alt4 + top1(sx)) + top1(sy);
    lemma_rot(b1, c1, d1);
    lemma_frame(seq![Instr::Op(Op::Rot)], top3(b1, c1, d1), emp(), top3(c1, d1, b1), emp(), top1(a1), alt6);
    assert(top1(a1) + top3(b1, c1, d1) =~= top4(a1, b1, c1, d1));
    assert(top1(a1) + top3(c1, d1, b1) =~= top2(a1, c1) + top2(d1, b1));
    assert(alt6 + emp() =~= alt6);
    lemma_compose(
        acc, seq![Instr::Op(Op::Rot)], pre0, emp(), top4(a1, b1, c1, d1), alt6,
        top2(a1, c1) + top2(d1, b1), alt6,
    );
    let t1 = acc + seq![Instr::Op(Op::Rot)];
    lemma_frame(ga3, top2(d1, b1), emp(), top1(su), emp(), top2(a1, c1), alt6);
    lemma_compose(
        t1, ga3, pre0, emp(), top2(a1, c1) + top2(d1, b1), alt6, top2(a1, c1) + top1(su), alt6,
    );
    let t2 = t1 + ga3;
    lemma_toalt(su);
    lemma_frame(ta, top1(su), emp(), emp(), top1(su), top2(a1, c1), alt6);
    assert(top2(a1, c1) + emp() =~= top2(a1, c1));
    lemma_compose(
        t2, ta, pre0, emp(), top2(a1, c1) + top1(su), alt6, top2(a1, c1), alt6 + top1(su),
    );
    let t3 = t2 + ta;
    lemma_frame(ga4, top2(a1, c1), emp(), top1(sv), emp(), emp(), alt6 + top1(su));
    assert(emp() + top2(a1, c1) =~= top2(a1, c1));
    assert(emp() + top1(sv) =~= top1(sv));
    assert((alt6 + top1(su)) + emp() =~= alt6 + top1(su));
    lemma_compose(
        t3, ga4, pre0, emp(), top2(a1, c1), alt6 + top1(su), top1(sv), alt6 + top1(su),
    );
    let t4 = t3 + ga4;
    lemma_fromalt(su);
    lemma_frame(fa, emp(), top1(su), top1(su), emp(), top1(sv), alt6);
    assert(top1(sv) + emp() =~= top1(sv));
    assert(top1(sv) + top1(su) =~= top2(sv, su));
    lemma_compose(t4, fa, pre0, emp(), top1(sv), alt6 + top1(su), top2(sv, su), alt6);
    let t5 = t4 + fa;
    lemma_fromalt(sy);
    lemma_frame(fa, emp(), top1(sy), top1(sy), emp(), top2(sv, su), alt4 + top1(sx));
    assert(top2(sv, su) + emp() =~= top2(sv, su));
    assert((alt4 + top1(sx)) + top1(sy) =~= alt6);
    assert(top2(sv, su) + top1(sy) =~= top3(sv, su, sy));
    assert((alt4 + top1(sx)) + emp() =~= alt4 + top1(sx));
    lemma_compose(t5, fa, pre0, emp(), top2(sv, su), alt6, top3(sv, su, sy), alt4 + top1(sx));
    let t6 = t5 + fa;
    lemma_fromalt(sx);
    lemma_frame(fa, emp(), top1(sx), top1(sx), emp(), top3(sv, su, sy), alt4);
    assert(top3(sv, su, sy) + emp() =~= top3(sv, su, sy));
    assert(alt4 + emp() =~= alt4);
    assert(top3(sv, su, sy) + top1(sx) =~= top4(sv, su, sy, sx));
    lemma_compose(t6, fa, pre0, emp(), top3(sv, su, sy), alt4 + top1(sx), top4(sv, su, sy, sx), alt4);
}

/// Stage five: multiply the two sum pairs and retrieve the four parked
/// components.
#[verifier::rlimit(100)]
proof fn lemma_kb_mid(
    acc: Seq<Instr>,
    ks3: Seq<Instr>,
    pre0: Seq<int>,
    sv: int, su: int, sy: int, sx: int,
    g1i: int, g1r: int, g3i: int, g3r: int,
    mi: int, mr: int,
)
    requires
        runs_to(acc, pre0, emp(), top4(sv, su, sy, sx), top4(g1r, g1i, g3r, g3i)),
        runs_to(ks3, top4(sv, su, sy, sx), emp(), top2(mi, mr), emp()),
    ensures
        runs_to(
            ((((acc + ks3) + seq![Instr::Op(Op::FromAlt)]) + seq![Instr::Op(Op::FromAlt)]) + seq![
                Instr::Op(Op::FromAlt),
            ]) + seq![Instr::Op(Op::FromAlt)],
            pre0,
            emp(),
            top6(mi, mr, g3i, g3r, g1i, g1r),
            emp(),
        ),
{
    let fa = seq![Instr::Op(Op::FromAlt)];
    lemma_frame(ks3, top4(sv, su, sy, sx), emp(), top2(mi, mr), emp(), emp(), top4(g1r, g1i, g3r, g3i));
    assert(emp() + top4(sv, su, sy, sx) =~= top4(sv, su, sy, sx));
    assert(emp() + top2(mi, mr) =~= top2(mi, mr));
    assert(top4(g1r, g1i, g3r, g3i) + emp() =~= top4(g1r, g1i, g3r, g3i));
    lemma_compose(
        acc, ks3, pre0, emp(), top4(sv, su, sy, sx), top4(g1r, g1i, g3r, g3i),
        top2(mi, mr), top4(g1r, g1i, g3r, g3i),
    );
    let t1 = acc + ks3;
    lemma_fromalt(g3i);
    lemma_frame(fa, emp(), top1(g3i), top1(g3i), emp(), top2(mi, mr), top3(g1r, g1i, g3r));
    assert(top2(mi, mr) + emp() =~= top2(mi, mr));
    assert(top3(g1r, g1i, g3r) + top1(g3i) =~= top4(g1r, g1i, g3r, g3i));
    assert(top2(mi, mr) + top1(g3i) =~= top3(mi, mr, g3i));
    assert(top3(g1r, g1i, g3r) + emp() =~= top3(g1r, g1i, g3r));
    lemma_compose(
        t1, fa, pre0, emp(), top2(mi, mr), top4(g1r, g1i, g3r, g3i), top3(mi, mr, g3i),
        top3(g1r, g1i, g3r),
    );
    let t2 = t1 + fa;
    lemma_fromalt(g3r);
    lemma_frame(fa, emp(), top1(g3r), top1(g3r), emp(), top3(mi, mr, g3i), top2(g1r, g1i));
    assert(top3(mi, mr, g3i) + emp() =~= top3(mi, mr, g3i));
    assert(top2(g1r, g1i) + top1(g3r) =~= top3(g1r, g1i, g3r));
    assert(top3(mi, mr, g3i) + top1(g3r) =~= top4(mi, mr, g3i, g3r));
    assert(top2(g1r, g1i) + emp() =~= top2(g1r, g1i));
    lemma_compose(
        t2, fa, pre0, emp(), top3(mi, mr, g3i), top3(g1r, g1i, g3r), top4(mi, mr, g3i, g3r),
        top2(g1r, g1i),
    );
    let t3 = t2 + fa;
    lemma_fromalt(g1i);
    lemma_frame(fa, emp(), top1(g1i), top1(g1i), emp(), top4(mi, mr, g3i, g3r), top1(g1r));
    assert(top4(mi, mr, g3i, g3r) + emp() =~= top4(mi, mr, g3i, g3r));
    assert(top1(g1r) + top1(g1i) =~= top2(g1r, g1i));
    assert(top4(mi, mr, g3i, g3r) + top1(g1i) =~= top5(mi, mr, g3i, g3r, g1i));
    assert(top1(g1r) + emp() =~= top1(g1r));
    lemma_compose(
        t3, fa, pre0, emp(), top4(mi, mr, g3i, g3r), top2(g1r, g1i), top5(mi, mr, g3i, g3r, g1i),
        top1(g1r),
    );
    let t4 = t3 + fa;
    lemma_fromalt(g1r);
    lemma_frame(fa, emp(), top1(g1r), top1(g1r), emp(), top5(mi, mr, g3i, g3r, g1i), emp());
    assert(top5(mi, mr, g3i, g3r, g1i) + emp() =~= top5(mi, mr, g3i, g3r, g1i));
    assert(emp() + top1(g1r) =~= top1(g1r));
    assert(top5(mi, mr, g3i, g3r, g1i) + top1(g1r) =~= top6(mi, mr, g3i, g3r, g1i, g1r));
    assert(emp() + emp() =~= emp());
    lemma_compose(
        t4, fa, pre0, emp(), top5(mi, mr, g3i, g3r, g1i), top1(g1r),
        top6(mi, mr, g3i, g3r, g1i, g1r), emp(),
    );
}

/// One cross-term reconstruction round: move one middle component to the
/// top, subtract the matching components of the two outer products from
/// it, and leave the result in place.
#[verifier::rlimit(100)]
proof fn lemma_kb_cross(
    acc: Seq<Instr>,
    gadd: Seq<Instr>,
    gsub: Seq<Instr>,
    pre0: Seq<int>,
    e1: int, e2: int, e3: int, e4: int, e5: int, m: int,
    sum: int, cross: int,
)
    requires
        runs_to(acc, pre0, emp(), top6(m, e1, e2, e3, e4, e5), emp()),
        runs_to(gadd, top2(e4, e2), emp(), top1(sum), emp()),
        runs_to(gsub, top2(m, sum), emp(), top1(cross), emp()),
    ensures
        runs_to(
            ((((acc + seq![Instr::Op(Op::Push(5)), Instr::Op(Op::Roll)]) + seq![
                Instr::Op(Op::Push(2)),
                Instr::Op(Op::Pick),
            ]) + seq![Instr::Op(Op::Push(5)), Instr::Op(Op::Pick)]) + gadd) + gsub,
            pre0,
            emp(),
            top6(e1, e2, e3, e4, e5, cross),
            emp(),
        ),
{
    let r5 = seq![Instr::Op(Op::Push(5)), Instr::Op(Op::Roll)];
    let p2 = seq![Instr::Op(Op::Push(2)), Instr::Op(Op::Pick)];
    let p5 = seq![Instr::Op(Op::Push(5)), Instr::Op(Op::Pick)];
    lemma_roll(top6(m, e1, e2, e3, e4, e5), 5);
    assert((top6(m, e1, e2, e3, e4, e5).take(0) + top6(m, e1, e2, e3, e4, e5).subrange(1, 6)).push(
        m,
    ) =~= top6(e1, e2, e3, e4, e5, m));
    lemma_compose(
        acc, r5, pre0, emp(), top6(m, e1, e2, e3, e4, e5), emp(), top6(e1, e2, e3, e4, e5, m),
        emp(),
    );
    let t1 = acc + r5;
    lemma_pick(top6(e1, e2, e3, e4, e5, m), 2);
    assert(top6(e1, e2, e3, e4, e5, m)[6 - 1 - 2] == e4);
    lemma_compose(
        t1, p2, pre0, emp(), top6(e1, e2, e3, e4, e5, m), emp(),
        top6(e1, e2, e3, e4, e5, m).push(e4), emp(),
    );
    let t2 = t1 + p2;
    lemma_pick(top6(e1, e2, e3, e4, e5, m).push(e4), 5);
    assert(top6(e1, e2, e3, e4, e5, m).push(e4)[7 - 1 - 5] == e2);
    lemma_compose(
        t2, p5, pre0, emp(), top6(e1, e2, e3, e4, e5, m).push(e4), emp(),
        top6(e1, e2, e3, e4, e5, m).push(e4).push(e2), emp(),
    );
    let t3 = t2 + p5;
    lemma_frame(gadd, top2(e4, e2), emp(), top1(sum), emp(), top6(e1, e2, e3, e4, e5, m), emp());
    assert(top6(e1, e2, e3, e4, e5, m) + top2(e4, e2) =~= top6(e1, e2, e3, e4, e5, m).push(
        e4,
    ).push(e2));
    assert(top6(e1, e2, e3, e4, e5, m) + top1(sum) =~= top6(e1, e2, e3, e4, e5, m).push(sum));
    assert(emp() + emp() =~= emp());
    lemma_compose(
        t3, gadd, pre0, emp(), top6(e1, e2, e3, e4, e5, m).push(e4).push(e2), emp(),
        top6(e1, e2, e3, e4, e5, m).push(sum), emp(),
    );
    let t4 = t3 + gadd;
    lemma_frame(gsub, top2(m, sum), emp(), top1(cross), emp(), top5(e1, e2, e3, e4, e5), emp());
    assert(top5(e1, e2, e3, e4, e5) + top2(m, sum) =~= top6(e1, e2, e3, e4, e5, m).push(sum));
    assert(top5(e1, e2, e3, e4, e5) + top1(cross) =~= top6(e1, e2, e3, e4, e5, cross));
    lemma_compose(
        t4, gsub, pre0, emp(), top6(e1, e2, e3, e4, e5, m).push(sum), emp(),
        top6(e1, e2, e3, e4, e5, cross), emp(),
    );
}

/// Final stage: rotate the low product to the top.
#[verifier::rlimit(100)]
proof fn lemma_kb_finish(
    acc: Seq<Instr>,
    pre0: Seq<int>,
    e1: int, e2: int, e3: int, e4: int, e5: int, e6: int,
)
    requires
        runs_to(acc, pre0, emp(), top6(e1, e2, e3, e4, e5, e6), emp()),
    ensures
        runs_to(
            (acc + seq![Instr::Op(Op::Push(5)), Instr::Op(Op::Roll)]) + seq![
                Instr::Op(Op::Push(5)),
                Instr::Op(Op::Roll),
            ],
            pre0,
            emp(),
            top6(e3, e4, e5, e6, e1, e2),
            emp(),
        ),
{
    let r5 = seq![Instr::Op(Op::Push(5)), Instr::Op(Op::Roll)];
    lemma_roll(top6(e1, e2, e3, e4, e5, e6), 5);
    assert((top6(e1, e2, e3, e4, e5, e6).take(0) + top6(e1, e2, e3, e4, e5, e6).subrange(1, 6)).push(
        e1,
    ) =~= top6(e2, e3, e4, e5, e6, e1));
    lemma_compose(
        acc, r5, pre0, emp(), top6(e1, e2, e3, e4, e5, e6), emp(), top6(e2, e3, e4, e5, e6, e1),
        emp(),
    );
    let t1 = acc + r5;
    lemma_roll(top6(e2, e3, e4, e5, e6, e1), 5);
    assert((top6(e2, e3, e4, e5, e6, e1).take(0) + top6(e2, e3, e4, e5, e6, e1).subrange(1, 6)).push(
        e2,
    ) =~= top6(e3, e4, e5, e6, e1, e2));
    lemma_compose(
        t1, r5, pre0, emp(), top6(e2, e3, e4, e5, e6, e1), emp(), top6(e3, e4, e5, e6, e1, e2),
        emp(),
    );
}

/// Three-way Karatsuba over two QM31 operands, each two CM31 pairs
/// `(b+a*i) + (d+c*i)*j`: consumes eight elements and leaves the three
/// CM31 products needed by extension multiplication — the high-pair
/// product deepest, the cross sums in the middle, and the low-pair product
/// on top, each pair imaginary-deeper. Three `karatsuba_small` runs and
/// one subtraction of the outer products from the sum product give the
/// middle term.
#[verifier::rlimit(100)]
pub fn karatsuba_big() -> (r: Fragment)
    ensures
        forall|a1: int, b1: int, c1: int, d1: int, a2: int, b2: int, c2: int, d2: int|
            is_m31(a1) && is_m31(b1) && is_m31(c1) && is_m31(d1) && is_m31(a2) && is_m31(b2)
                && is_m31(c2) && is_m31(d2) ==> #[trigger] runs_to(
                r@,
                top8(a1, b1, c1, d1, a2, b2, c2, d2),
                emp(),
                top6(
                    modp(a1 * b2 + a2 * b1),
                    modp(b1 * b2 - a1 * a2),
                    modp(a1 * d2 + b1 * c2 + a2 * d1 + b2 * c1),
                    modp(b1 * d2 + b2 * d1 - a1 * c2 - a2 * c1),
                    modp(c1 * d2 + c2 * d1),
                    modp(d1 * d2 - c1 * c2),
                ),
                emp(),
            ),
{
    let mut f = Fragment::new();
    f.op(Op::Push(7));
    f.op(Op::Pick);
    f.op(Op::Push(7));
    f.op(Op::Pick);
    f.op(Op::Push(5));
    f.op(Op::Pick);
    f.op(Op::Push(5));
    f.op(Op::Pick);
    let ks1 = karatsuba_small();
    let ghost ks1v = ks1@;
    f.splice(ks1);
    f.op(Op::ToAlt);
    f.op(Op::ToAlt);
    let ghost s1 = f@;
    f.op(Op::Dup2);
    f.op(Op::Push(7));
    f.op(Op::Pick);
    f.op(Op::Push(7));
    f.op(Op::Pick);
    let ks2 = karatsuba_small();
    let ghost ks2v = ks2@;
    f.splice(ks2);
    f.op(Op::ToAlt);
    f.op(Op::ToAlt);
    let ghost s2 = f@;
    f.op(Op::Rot);
    let ga1 = m31_add();
    let ghost ga1v = ga1@;
    f.splice(ga1);
    f.op(Op::ToAlt);
    let ga2 = m31_add();
    let ghost ga2v = ga2@;
    f.splice(ga2);
    f.op(Op::ToAlt);
    let ghost s3 = f@;
    f.op(Op::Rot);
    let ga3 = m31_add();
    let ghost ga3v = ga3@;
    f.splice(ga3);
    f.op(Op::ToAlt);
    let ga4 = m31_add();
    let ghost ga4v = ga4@;
    f.splice(ga4);
    f.op(Op::FromAlt);
    f.op(Op::FromAlt);
    f.op(Op::FromAlt);
    let ghost s4 = f@;
    let ks3 = karatsuba_small();
    let ghost ks3v = ks3@;
    f.splice(ks3);
    f.op(Op::FromAlt);
    f.op(Op::FromAlt);
    f.op(Op::FromAlt);
    f.op(Op::FromAlt);
    let ghost s5 = f@;
    f.op(Op::Push(5));
    f.op(Op::Roll);
    f.op(Op::Push(2));
    f.op(Op::Pick);
    f.op(Op::Push(5));
    f.op(Op::Pick);
    let gadd5 = m31_add();
    let ghost gadd5v = gadd5@;
    f.splice(gadd5);
    let gsub1 = m31_sub();
    let ghost gsub1v = gsub1@;
    f.splice(gsub1);
    let ghost s6 = f@;
    f.op(Op::Push(5));
    f.op(Op::Roll);
    f.op(Op::Push(2));
    f.op(Op::Pick);
    f.op(Op::Push(5));
    f.op(Op::Pick);
    let gadd6 = m31_add();
    let ghost gadd6v = gadd6@;
    f.splice(gadd6);
    let gsub2 = m31_sub();
    let ghost gsub2v = gsub2@;
    f.splice(gsub2);
    let ghost s7 = f@;
    f.op(Op::Push(5));
    f.op(Op::Roll);
    f.op(Op::Push(5));
    f.op(Op::Roll);
    proof {
        let p7 = seq![Instr::Op(Op::Push(7)), Instr::Op(Op::Pick)];
        let p5 = seq![Instr::Op(Op::Push(5)), Instr::Op(Op::Pick)];
        let p2 = seq![Instr::Op(Op::Push(2)), Instr::Op(Op::Pick)];
        let r5 = seq![Instr::Op(Op::Push(5)), Instr::Op(Op::Roll)];
        let ta = seq![Instr::Op(Op::ToAlt)];
        let fa = seq![Instr::Op(Op::FromAlt)];
        let rt = seq![Instr::Op(Op::Rot)];
        let d2op = seq![Instr::Op(Op::Dup2)];
        assert(s1 =~= ((((((Seq::<Instr>::empty() + p7) + p7) + p5) + p5) + ks1v) + ta) + ta);
        assert(s2 =~= (((((s1 + d2op) + p7) + p7) + ks2v) + ta) + ta);
        assert(s3 =~= ((((s2 + rt) + ga1v) + ta) + ga2v) + ta);
        assert(s4 =~= ((((((s3 + rt) + ga3v) + ta) + ga4v) + fa) + fa) + fa);
        assert(s5 =~= ((((s4 + ks3v) + fa) + fa) + fa) + fa);
        assert(s6 =~= ((((s5 + r5) + p2) + p5) + gadd5v) + gsub1v);
        assert(s7 =~= ((((s6 + r5) + p2) + p5) + gadd6v) + gsub2v);
        assert(f@ =~= (s7 + r5) + r5);
        assert forall|a1: int, b1: int, c1: int, d1: int, a2: int, b2: int, c2: int, d2: int|
            is_m31(a1) && is_m31(b1) && is_m31(c1) && is_m31(d1) && is_m31(a2) && is_m31(b2)
                && is_m31(c2) && is_m31(d2) implies #[trigger] runs_to(
            f@,
            top8(a1, b1, c1, d1, a2, b2, c2, d2),
            emp(),
            top6(
                modp(a1 * b2 + a2 * b1),
                modp(b1 * b2 - a1 * a2),
                modp(a1 * d2 + b1 * c2 + a2 * d1 + b2 * c1),
                modp(b1 * d2 + b2 * d1 - a1 * c2 - a2 * c1),
                modp(c1 * d2 + c2 * d1),
                modp(d1 * d2 - c1 * c2),
            ),
            emp(),
        ) by {
            let pr = prime();
            let pre0 = top8(a1, b1, c1, d1, a2, b2, c2, d2);
            let g1i = modp(a1 * b2 + a2 * b1);
            let g1r = modp(b1 * b2 - a1 * a2);
            let g3i = modp(c2 * d1 + c1 * d2);
            let g3r = modp(d2 * d1 - c2 * c1);
            let sx = modp(d2 + b2);
            let sy = modp(a2 + c2);
            let su = modp(d1 + b1);
            let sv = modp(a1 + c1);
            let mi = modp(sv * sx + sy * su);
            let mr = modp(su * sx - sv * sy);
            let ca = modp(g1i + g3i);
            let g2i = modp(mi - ca);
            let cb = modp(g1r + g3r);
            let g2r = modp(mr - cb);
            // the seven stages
            assert(runs_to(ks1v, top4(a1, b1, a2, b2), emp(), top2(modp(a1 * b2 + a2 * b1), modp(
                b1 * b2 - a1 * a2,
            )), emp()));
            lemma_kb_high(ks1v, a1, b1, c1, d1, a2, b2, c2, d2, g1i, g1r);
            assert(runs_to(s1, pre0, emp(), pre0, top2(g1r, g1i)));
            assert(runs_to(ks2v, top4(c2, d2, c1, d1), emp(), top2(modp(c2 * d1 + c1 * d2), modp(
                d2 * d1 - c2 * c1,
            )), emp()));
            lemma_kb_low(s1, ks2v, a1, b1, c1, d1, a2, b2, c2, d2, g1i, g1r, g3i, g3r);
            assert(runs_to(s2, pre0, emp(), pre0, top4(g1r, g1i, g3r, g3i)));
            assert(runs_to(ga1v, top2(d2, b2), emp(), top1(modp(d2 + b2)), emp()));
            assert(runs_to(ga2v, top2(a2, c2), emp(), top1(modp(a2 + c2)), emp()));
            lemma_kb_sums2(s2, ga1v, ga2v, pre0, a1, b1, c1, d1, a2, b2, c2, d2, top4(g1r, g1i, g3r, g3i), sx, sy);
            assert(runs_to(s3, pre0, emp(), top4(a1, b1, c1, d1), (top4(g1r, g1i, g3r, g3i)
                + top1(sx)) + top1(sy)));
            assert(runs_to(ga3v, top2(d1, b1), emp(), top1(modp(d1 + b1)), emp()));
            assert(runs_to(ga4v, top2(a1, c1), emp(), top1(modp(a1 + c1)), emp()));
            lemma_kb_sums1(s3, ga3v, ga4v, pre0, a1, b1, c1, d1, top4(g1r, g1i, g3r, g3i), sx, sy, su, sv);
            assert(runs_to(s4, pre0, emp(), top4(sv, su, sy, sx), top4(g1r, g1i, g3r, g3i)));
            assert(is_m31(sv) && is_m31(su) && is_m31(sy) && is_m31(sx));
            assert(runs_to(ks3v, top4(sv, su, sy, sx), emp(), top2(modp(sv * sx + sy * su), modp(
                su * sx - sv * sy,
            )), emp()));
            lemma_kb_mid(s4, ks3v, pre0, sv, su, sy, sx, g1i, g1r, g3i, g3r, mi, mr);
            assert(runs_to(s5, pre0, emp(), top6(mi, mr, g3i, g3r, g1i, g1r), emp()));
            assert(runs_to(gadd5v, top2(g1i, g3i), emp(), top1(modp(g1i + g3i)), emp()));
            assert(runs_to(gsub1v, top2(mi, ca), emp(), top1(modp(mi - ca)), emp()));
            lemma_kb_cross(s5, gadd5v, gsub1v, pre0, mr, g3i, g3r, g1i, g1r, mi, ca, g2i);
            assert(runs_to(s6, pre0, emp(), top6(mr, g3i, g3r, g1i, g1r, g2i), emp()));
            assert(runs_to(gadd6v, top2(g1r, g3r), emp(), top1(modp(g1r + g3r)), emp()));
            assert(runs_to(gsub2v, top2(mr, cb), emp(), top1(modp(mr - cb)), emp()));
            lemma_kb_cross(s6, gadd6v, gsub2v, pre0, g3i, g3r, g1i, g1r, g2i, mr, cb, g2r);
            assert(runs_to(s7, pre0, emp(), top6(g3i, g3r, g1i, g1r, g2i, g2r), emp()));
            lemma_kb_finish(s7, pre0, g3i, g3r, g1i, g1r, g2i, g2r);
            assert(runs_to(f@, pre0, emp(), top6(g1i, g1r, g2i, g2r, g3i, g3r), emp()));
            // the arithmetic of the middle term
            lemma_mul_mod_noop(a1 + c1, d2 + b2, pr);
            lemma_mul_mod_noop(a2 + c2, d1 + b1, pr);
            lemma_add_mod_noop(sv * sx, sy * su, pr);
            lemma_add_mod_noop((a1 + c1) * (d2 + b2), (a2 + c2) * (d1 + b1), pr);
            assert(mi == modp((a1 + c1) * (d2 + b2) + (a2 + c2) * (d1 + b1)));
            lemma_add_mod_noop(a1 * b2 + a2 * b1, c2 * d1 + c1 * d2, pr);
            assert(ca == modp((a1 * b2 + a2 * b1) + (c2 * d1 + c1 * d2)));
            lemma_sub_mod_noop(
                (a1 + c1) * (d2 + b2) + (a2 + c2) * (d1 + b1),
                (a1 * b2 + a2 * b1) + (c2 * d1 + c1 * d2),
                pr,
            );
            assert(g2i == modp((a1 + c1) * (d2 + b2) + (a2 + c2) * (d1 + b1) - ((a1 * b2 + a2 * b1)
                + (c2 * d1 + c1 * d2))));
            assert((a1 + c1) * (d2 + b2) + (a2 + c2) * (d1 + b1) - ((a1 * b2 + a2 * b1) + (c2 * d1
                + c1 * d2)) == a1 * d2 + b1 * c2 + a2 * d1 + b2 * c1) by (nonlinear_arith);
            lemma_mul_mod_noop(d1 + b1, d2 + b2, pr);
            lemma_mul_mod_noop(a1 + c1, a2 + c2, pr);
            lemma_sub_mod_noop(su * sx, sv * sy, pr);
            lemma_sub_mod_noop((d1 + b1) * (d2 + b2), (a1 + c1) * (a2 + c2), pr);
            assert(mr == modp((d1 + b1) * (d2 + b2) - (a1 + c1) * (a2 + c2)));
            lemma_add_mod_noop(b1 * b2 - a1 * a2, d2 * d1 - c2 * c1, pr);
            assert(cb == modp((b1 * b2 - a1 * a2) + (d2 * d1 - c2 * c1)));
            lemma_sub_mod_noop(
                (d1 + b1) * (d2 + b2) - (a1 + c1) * (a2 + c2),
                (b1 * b2 - a1 * a2) + (d2 * d1 - c2 * c1),
                pr,
            );
            assert(g2r == modp((d1 + b1) * (d2 + b2) - (a1 + c1) * (a2 + c2) - ((b1 * b2 - a1 * a2)
                + (d2 * d1 - c2 * c1))));
            assert((d1 + b1) * (d2 + b2) - (a1 + c1) * (a2 + c2) - ((b1 * b2 - a1 * a2) + (d2 * d1
                - c2 * c1)) == b1 * d2 + b2 * d1 - a1 * c2 - a2 * c1) by (nonlinear_arith);
        }
    }
    f
}

} // verus!
