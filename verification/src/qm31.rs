//! Fragments for the quartic extension QM31: componentwise arithmetic,
//! lane-exact equality checking, and stack plumbing for whole four-lane
//! elements.
//!
//! A QM31 element occupies four stack items, deepest first
//! `x1_imag, x1_real, x0_imag, x0_real`: the low CM31 coordinate is on
//! top, and within each CM31 pair the imaginary part is deeper.

use vstd::prelude::*;

use vstd::arithmetic::div_mod::{
    lemma_add_mod_noop_right, lemma_mod_bound, lemma_mul_mod_noop_right, lemma_small_mod,
    lemma_sub_mod_noop, lemma_sub_mod_noop_right,
};

use crate::karatsuba_complex::karatsuba_big;
use crate::m31::{is_m31, lemma_modp_fold, m31_add, m31_double, m31_mul, m31_sub, modp, prime};
use crate::vm::{
    emp, fails_on, lemma_compose, lemma_compose_fails, lemma_dup, lemma_equalverify,
    lemma_equalverify_fails, lemma_fails_prefix, lemma_frame, lemma_frame_fails, lemma_fromalt,
    lemma_nil, lemma_pick, lemma_roll, lemma_rot, lemma_swap, lemma_toalt, runs_to, top1, top2,
    top3, top4, top5, top6, top8, Fragment, Instr, Op,
};

verus! {

/// One lane round of a componentwise binary operation: roll the deepest
/// remaining lane of the first operand above the remaining lanes of the
/// second, combine the two matching lanes with `gmid`, and park the
/// result on the alt stack.
#[verifier::rlimit(100)]
proof fn lemma_lane_round(
    acc: Seq<Instr>,
    gmid: Seq<Instr>,
    pre0: Seq<int>,
    w: Seq<int>,
    x: int,
    ys: Seq<int>,
    alt0: Seq<int>,
    s: int,
    d: i64,
)
    requires
        runs_to(acc, pre0, emp(), (w + top1(x)) + ys, alt0),
        runs_to(gmid, top2(ys.last(), x), emp(), top1(s), emp()),
        d as int == ys.len(),
        1 <= d,
    ensures
        runs_to(
            ((acc + seq![Instr::Op(Op::Push(d)), Instr::Op(Op::Roll)]) + gmid) + seq![
                Instr::Op(Op::ToAlt),
            ],
            pre0,
            emp(),
            w + ys.drop_last(),
            alt0 + top1(s),
        ),
{
    let xs = top1(x) + ys;
    let li = xs.len() as int;
    lemma_roll(xs, d);
    assert(xs.take(li - 1 - d as int) + xs.subrange(li - d as int, li) =~= ys);
    assert(xs[li - 1 - d as int] == x);
    lemma_frame(
        seq![Instr::Op(Op::Push(d)), Instr::Op(Op::Roll)],
        xs,
        emp(),
        ys.push(x),
        emp(),
        w,
        alt0,
    );
    assert((w + top1(x)) + ys =~= w + xs);
    assert(alt0 + emp() =~= alt0);
    lemma_compose(
        acc,
        seq![Instr::Op(Op::Push(d)), Instr::Op(Op::Roll)],
        pre0,
        emp(),
        w + xs,
        alt0,
        w + ys.push(x),
        alt0,
    );
    let t1 = acc + seq![Instr::Op(Op::Push(d)), Instr::Op(Op::Roll)];
    lemma_frame(gmid, top2(ys.last(), x), emp(), top1(s), emp(), w + ys.drop_last(), alt0);
    assert((w + ys.drop_last()) + top2(ys.last(), x) =~= w + ys.push(x));
    assert((w + ys.drop_last()) + top1(s) =~= (w + ys.drop_last()) + top1(s));
    lemma_compose(
        t1,
        gmid,
        pre0,
        emp(),
        w + ys.push(x),
        alt0,
        (w + ys.drop_last()) + top1(s),
        alt0,
    );
    let t2 = t1 + gmid;
    lemma_toalt(s);
    lemma_frame(seq![Instr::Op(Op::ToAlt)], top1(s), emp(), emp(), top1(s), w + ys.drop_last(), alt0);
    assert((w + ys.drop_last()) + emp() =~= w + ys.drop_last());
    lemma_compose(
        t2,
        seq![Instr::Op(Op::ToAlt)],
        pre0,
        emp(),
        (w + ys.drop_last()) + top1(s),
        alt0,
        w + ys.drop_last(),
        alt0 + top1(s),
    );
}

/// A fragment preceded by `Swap` takes its two inputs in the opposite
/// order.
proof fn lemma_swap_first(g: Seq<Instr>, x: int, y: int, s: int)
    requires
        runs_to(g, top2(x, y), emp(), top1(s), emp()),
    ensures
        runs_to(seq![Instr::Op(Op::Swap)] + g, top2(y, x), emp(), top1(s), emp()),
{
    lemma_swap(y, x);
    lemma_compose(
        seq![Instr::Op(Op::Swap)],
        g,
        top2(y, x),
        emp(),
        top2(x, y),
        emp(),
        top1(s),
        emp(),
    );
}

/// Retrieve three parked lane results below a fourth on the stack.
#[verifier::rlimit(100)]
proof fn lemma_unpark3(acc: Seq<Instr>, pre0: Seq<int>, t: int, s0: int, s1: int, s2: int)
    requires
        runs_to(acc, pre0, emp(), top1(t), top3(s0, s1, s2)),
    ensures
        runs_to(
            ((acc + seq![Instr::Op(Op::FromAlt)]) + seq![Instr::Op(Op::FromAlt)]) + seq![
                Instr::Op(Op::FromAlt),
            ],
            pre0,
            emp(),
            top4(t, s2, s1, s0),
            emp(),
        ),
{
    lemma_fromalt(s2);
    lemma_frame(seq![Instr::Op(Op::FromAlt)], emp(), top1(s2), top1(s2), emp(), top1(t), top2(s0, s1));
    assert(top1(t) + emp() =~= top1(t));
    assert(top2(s0, s1) + top1(s2) =~= top3(s0, s1, s2));
    assert(top1(t) + top1(s2) =~= top2(t, s2));
    assert(top2(s0, s1) + emp() =~= top2(s0, s1));
    lemma_compose(
        acc,
        seq![Instr::Op(Op::FromAlt)],
        pre0,
        emp(),
        top1(t),
        top3(s0, s1, s2),
        top2(t, s2),
        top2(s0, s1),
    );
    let t1 = acc + seq![Instr::Op(Op::FromAlt)];
    lemma_fromalt(s1);
    lemma_frame(seq![Instr::Op(Op::FromAlt)], emp(), top1(s1), top1(s1), emp(), top2(t, s2), top1(s0));
    assert(top2(t, s2) + emp() =~= top2(t, s2));
    assert(top1(s0) + top1(s1) =~= top2(s0, s1));
    assert(top2(t, s2) + top1(s1) =~= top3(t, s2, s1));
    assert(top1(s0) + emp() =~= top1(s0));
    lemma_compose(
        t1,
        seq![Instr::Op(Op::FromAlt)],
        pre0,
        emp(),
        top2(t, s2),
        top2(s0, s1),
        top3(t, s2, s1),
        top1(s0),
    );
    let t2 = t1 + seq![Instr::Op(Op::FromAlt)];
    lemma_fromalt(s0);
    lemma_frame(seq![Instr::Op(Op::FromAlt)], emp(), top1(s0), top1(s0), emp(), top3(t, s2, s1), emp());
    assert(top3(t, s2, s1) + emp() =~= top3(t, s2, s1));
    assert(emp() + top1(s0) =~= top1(s0));
    assert(top3(t, s2, s1) + top1(s0) =~= top4(t, s2, s1, s0));
    assert(emp() + emp() =~= emp());
    lemma_compose(
        t2,
        seq![Instr::Op(Op::FromAlt)],
        pre0,
        emp(),
        top3(t, s2, s1),
        top1(s0),
        top4(t, s2, s1, s0),
        emp(),
    );
}

/// Componentwise QM31 addition: consumes two elements and leaves their
/// lanewise sum modulo p, in the same layout.
#[verifier::rlimit(100)]
pub fn qm31_add() -> (r: Fragment)
    ensures
        forall|x3: int, x2: int, x1: int, x0: int, y3: int, y2: int, y1: int, y0: int|
            is_m31(x3) && is_m31(x2) && is_m31(x1) && is_m31(x0) && is_m31(y3) && is_m31(y2)
                && is_m31(y1) && is_m31(y0) ==> #[trigger] runs_to(
                r@,
                top8(x3, x2, x1, x0, y3, y2, y1, y0),
                emp(),
                top4(modp(x3 + y3), modp(x2 + y2), modp(x1 + y1), modp(x0 + y0)),
                emp(),
            ),
{
    let mut f = Fragment::new();
    f.op(Op::Push(4));
    f.op(Op::Roll);
    let g1 = m31_add();
    let ghost g1v = g1@;
    f.splice(g1);
    f.op(Op::ToAlt);
    f.op(Op::Push(3));
    f.op(Op::Roll);
    let g2 = m31_add();
    let ghost g2v = g2@;
    f.splice(g2);
    f.op(Op::ToAlt);
    f.op(Op::Push(2));
    f.op(Op::Roll);
    let g3 = m31_add();
    let ghost g3v = g3@;
    f.splice(g3);
    f.op(Op::ToAlt);
    let g4 = m31_add();
    let ghost g4v = g4@;
    f.splice(g4);
    f.op(Op::FromAlt);
    f.op(Op::FromAlt);
    f.op(Op::FromAlt);
    proof {
        let r1 = seq![Instr::Op(Op::Push(4)), Instr::Op(Op::Roll)];
        let r2 = seq![Instr::Op(Op::Push(3)), Instr::Op(Op::Roll)];
        let r3 = seq![Instr::Op(Op::Push(2)), Instr::Op(Op::Roll)];
        let ta = seq![Instr::Op(Op::ToAlt)];
        let fa = seq![Instr::Op(Op::FromAlt)];
        assert(f@ =~= ((((((((((Seq::<Instr>::empty() + r1) + g1v) + ta) + r2) + g2v) + ta) + r3)
            + g3v) + ta) + g4v + fa) + fa + fa);
        assert forall|x3: int, x2: int, x1: int, x0: int, y3: int, y2: int, y1: int, y0: int|
            is_m31(x3) && is_m31(x2) && is_m31(x1) && is_m31(x0) && is_m31(y3) && is_m31(y2)
                && is_m31(y1) && is_m31(y0) implies #[trigger] runs_to(
            f@,
            top8(x3, x2, x1, x0, y3, y2, y1, y0),
            emp(),
            top4(modp(x3 + y3), modp(x2 + y2), modp(x1 + y1), modp(x0 + y0)),
            emp(),
        ) by {
            let pre0 = top8(x3, x2, x1, x0, y3, y2, y1, y0);
            let s0 = modp(y0 + x0);
            let s1 = modp(y1 + x1);
            let s2 = modp(y2 + x2);
            let s3 = modp(x3 + y3);
            lemma_nil(pre0, emp());
            assert((top3(x3, x2, x1) + top1(x0)) + top4(y3, y2, y1, y0) =~= pre0);
            assert(runs_to(g1v, top2(y0, x0), emp(), top1(modp(y0 + x0)), emp()));
            lemma_lane_round(
                Seq::<Instr>::empty(),
                g1v,
                pre0,
                top3(x3, x2, x1),
                x0,
                top4(y3, y2, y1, y0),
                emp(),
                s0,
                4,
            );
            let a1 = ((Seq::<Instr>::empty() + r1) + g1v) + ta;
            assert(top4(y3, y2, y1, y0).drop_last() =~= top3(y3, y2, y1));
            assert(top3(x3, x2, x1) + top3(y3, y2, y1) =~= (top2(x3, x2) + top1(x1)) + top3(
                y3,
                y2,
                y1,
            ));
            assert(emp() + top1(s0) =~= top1(s0));
            assert(runs_to(g2v, top2(y1, x1), emp(), top1(modp(y1 + x1)), emp()));
            lemma_lane_round(a1, g2v, pre0, top2(x3, x2), x1, top3(y3, y2, y1), top1(s0), s1, 3);
            let a2 = ((a1 + r2) + g2v) + ta;
            assert(top3(y3, y2, y1).drop_last() =~= top2(y3, y2));
            assert(top2(x3, x2) + top2(y3, y2) =~= (top1(x3) + top1(x2)) + top2(y3, y2));
            assert(top1(s0) + top1(s1) =~= top2(s0, s1));
            assert(runs_to(g3v, top2(y2, x2), emp(), top1(modp(y2 + x2)), emp()));
            lemma_lane_round(a2, g3v, pre0, top1(x3), x2, top2(y3, y2), top2(s0, s1), s2, 2);
            let a3 = ((a2 + r3) + g3v) + ta;
            assert(top2(y3, y2).drop_last() =~= top1(y3));
            assert(top1(x3) + top1(y3) =~= top2(x3, y3));
            assert(top2(s0, s1) + top1(s2) =~= top3(s0, s1, s2));
            assert(runs_to(g4v, top2(x3, y3), emp(), top1(modp(x3 + y3)), emp()));
            lemma_frame(g4v, top2(x3, y3), emp(), top1(s3), emp(), emp(), top3(s0, s1, s2));
            assert(emp() + top2(x3, y3) =~= top2(x3, y3));
            assert(emp() + top1(s3) =~= top1(s3));
            assert(top3(s0, s1, s2) + emp() =~= top3(s0, s1, s2));
            lemma_compose(
                a3,
                g4v,
                pre0,
                emp(),
                top2(x3, y3),
                top3(s0, s1, s2),
                top1(s3),
                top3(s0, s1, s2),
            );
            let a4 = a3 + g4v;
            lemma_unpark3(a4, pre0, s3, s0, s1, s2);
            assert(top4(s3, s2, s1, s0) == top4(
                modp(x3 + y3),
                modp(x2 + y2),
                modp(x1 + y1),
                modp(x0 + y0),
            ));
        }
    }
    f
}

/// Componentwise QM31 subtraction: consumes two elements and leaves the
/// lanewise difference, first minus second, modulo p.
#[verifier::rlimit(100)]
pub fn qm31_sub() -> (r: Fragment)
    ensures
        forall|x3: int, x2: int, x1: int, x0: int, y3: int, y2: int, y1: int, y0: int|
            is_m31(x3) && is_m31(x2) && is_m31(x1) && is_m31(x0) && is_m31(y3) && is_m31(y2)
                && is_m31(y1) && is_m31(y0) ==> #[trigger] runs_to(
                r@,
                top8(x3, x2, x1, x0, y3, y2, y1, y0),
                emp(),
                top4(modp(x3 - y3), modp(x2 - y2), modp(x1 - y1), modp(x0 - y0)),
                emp(),
            ),
{
    let mut f = Fragment::new();
    f.op(Op::Push(4));
    f.op(Op::Roll);
    f.op(Op::Swap);
    let g1 = m31_sub();
    let ghost g1v = g1@;
    f.splice(g1);
    f.op(Op::ToAlt);
    f.op(Op::Push(3));
    f.op(Op::Roll);
    f.op(Op::Swap);
    let g2 = m31_sub();
    let ghost g2v = g2@;
    f.splice(g2);
    f.op(Op::ToAlt);
    f.op(Op::Push(2));
    f.op(Op::Roll);
    f.op(Op::Swap);
    let g3 = m31_sub();
    let ghost g3v = g3@;
    f.splice(g3);
    f.op(Op::ToAlt);
    let g4 = m31_sub();
    let ghost g4v = g4@;
    f.splice(g4);
    f.op(Op::FromAlt);
    f.op(Op::FromAlt);
    f.op(Op::FromAlt);
    proof {
        let r1 = seq![Instr::Op(Op::Push(4)), Instr::Op(Op::Roll)];
        let r2 = seq![Instr::Op(Op::Push(3)), Instr::Op(Op::Roll)];
        let r3 = seq![Instr::Op(Op::Push(2)), Instr::Op(Op::Roll)];
        let sw = seq![Instr::Op(Op::Swap)];
        let ta = seq![Instr::Op(Op::ToAlt)];
        let fa = seq![Instr::Op(Op::FromAlt)];
        assert(f@ =~= ((((((((((Seq::<Instr>::empty() + r1) + (sw + g1v)) + ta) + r2) + (sw
            + g2v)) + ta) + r3) + (sw + g3v)) + ta) + g4v + fa) + fa + fa);
        assert forall|x3: int, x2: int, x1: int, x0: int, y3: int, y2: int, y1: int, y0: int|
            is_m31(x3) && is_m31(x2) && is_m31(x1) && is_m31(x0) && is_m31(y3) && is_m31(y2)
                && is_m31(y1) && is_m31(y0) implies #[trigger] runs_to(
            f@,
            top8(x3, x2, x1, x0, y3, y2, y1, y0),
            emp(),
            top4(modp(x3 - y3), modp(x2 - y2), modp(x1 - y1), modp(x0 - y0)),
            emp(),
        ) by {
            let pre0 = top8(x3, x2, x1, x0, y3, y2, y1, y0);
            let s0 = modp(x0 - y0);
            let s1 = modp(x1 - y1);
            let s2 = modp(x2 - y2);
            let s3 = modp(x3 - y3);
            lemma_nil(pre0, emp());
            assert((top3(x3, x2, x1) + top1(x0)) + top4(y3, y2, y1, y0) =~= pre0);
            assert(runs_to(g1v, top2(x0, y0), emp(), top1(modp(x0 - y0)), emp()));
            lemma_swap_first(g1v, x0, y0, s0);
            lemma_lane_round(
                Seq::<Instr>::empty(),
                sw + g1v,
                pre0,
                top3(x3, x2, x1),
                x0,
                top4(y3, y2, y1, y0),
                emp(),
                s0,
                4,
            );
            let a1 = ((Seq::<Instr>::empty() + r1) + (sw + g1v)) + ta;
            assert(top4(y3, y2, y1, y0).drop_last() =~= top3(y3, y2, y1));
            assert(top3(x3, x2, x1) + top3(y3, y2, y1) =~= (top2(x3, x2) + top1(x1)) + top3(
                y3,
                y2,
                y1,
            ));
            assert(emp() + top1(s0) =~= top1(s0));
            assert(runs_to(g2v, top2(x1, y1), emp(), top1(modp(x1 - y1)), emp()));
            lemma_swap_first(g2v, x1, y1, s1);
            lemma_lane_round(a1, sw + g2v, pre0, top2(x3, x2), x1, top3(y3, y2, y1), top1(s0), s1, 3);
            let a2 = ((a1 + r2) + (sw + g2v)) + ta;
            assert(top3(y3, y2, y1).drop_last() =~= top2(y3, y2));
            assert(top2(x3, x2) + top2(y3, y2) =~= (top1(x3) + top1(x2)) + top2(y3, y2));
            assert(top1(s0) + top1(s1) =~= top2(s0, s1));
            assert(runs_to(g3v, top2(x2, y2), emp(), top1(modp(x2 - y2)), emp()));
            lemma_swap_first(g3v, x2, y2, s2);
            lemma_lane_round(a2, sw + g3v, pre0, top1(x3), x2, top2(y3, y2), top2(s0, s1), s2, 2);
            let a3 = ((a2 + r3) + (sw + g3v)) + ta;
            assert(top2(y3, y2).drop_last() =~= top1(y3));
            assert(top1(x3) + top1(y3) =~= top2(x3, y3));
            assert(top2(s0, s1) + top1(s2) =~= top3(s0, s1, s2));
            assert(runs_to(g4v, top2(x3, y3), emp(), top1(modp(x3 - y3)), emp()));
            lemma_frame(g4v, top2(x3, y3), emp(), top1(s3), emp(), emp(), top3(s0, s1, s2));
            assert(emp() + top2(x3, y3) =~= top2(x3, y3));
            assert(emp() + top1(s3) =~= top1(s3));
            assert(top3(s0, s1, s2) + emp() =~= top3(s0, s1, s2));
            lemma_compose(
                a3,
                g4v,
                pre0,
                emp(),
                top2(x3, y3),
                top3(s0, s1, s2),
                top1(s3),
                top3(s0, s1, s2),
            );
            let a4 = a3 + g4v;
            lemma_unpark3(a4, pre0, s3, s0, s1, s2);
        }
    }
    f
}

/// Componentwise QM31 doubling in place.
#[verifier::rlimit(100)]
pub fn qm31_double() -> (r: Fragment)
    ensures
        forall|x3: int, x2: int, x1: int, x0: int|
            is_m31(x3) && is_m31(x2) && is_m31(x1) && is_m31(x0) ==> #[trigger] runs_to(
                r@,
                top4(x3, x2, x1, x0),
                emp(),
                top4(modp(2 * x3), modp(2 * x2), modp(2 * x1), modp(2 * x0)),
                emp(),
            ),
{
    let mut f = Fragment::new();
    let g1 = m31_double();
    let ghost g1v = g1@;
    f.splice(g1);
    f.op(Op::ToAlt);
    let g2 = m31_double();
    let ghost g2v = g2@;
    f.splice(g2);
    f.op(Op::ToAlt);
    let g3 = m31_double();
    let ghost g3v = g3@;
    f.splice(g3);
    f.op(Op::ToAlt);
    let g4 = m31_double();
    let ghost g4v = g4@;
    f.splice(g4);
    f.op(Op::FromAlt);
    f.op(Op::FromAlt);
    f.op(Op::FromAlt);
    proof {
        let ta = seq![Instr::Op(Op::ToAlt)];
        let fa = seq![Instr::Op(Op::FromAlt)];
        assert(f@ =~= ((((((Seq::<Instr>::empty() + g1v) + ta) + g2v) + ta) + g3v) + ta) + g4v
            + fa + fa + fa);
        assert forall|x3: int, x2: int, x1: int, x0: int|
            is_m31(x3) && is_m31(x2) && is_m31(x1) && is_m31(x0) implies #[trigger] runs_to(
            f@,
            top4(x3, x2, x1, x0),
            emp(),
            top4(modp(2 * x3), modp(2 * x2), modp(2 * x1), modp(2 * x0)),
            emp(),
        ) by {
            let pre0 = top4(x3, x2, x1, x0);
            let s0 = modp(2 * x0);
            let s1 = modp(2 * x1);
            let s2 = modp(2 * x2);
            let s3 = modp(2 * x3);
            lemma_nil(pre0, emp());
            assert(runs_to(g1v, top1(x0), emp(), top1(modp(2 * x0)), emp()));
            lemma_frame(g1v, top1(x0), emp(), top1(s0), emp(), top3(x3, x2, x1), emp());
            assert(top3(x3, x2, x1) + top1(x0) =~= pre0);
            assert(top3(x3, x2, x1) + top1(s0) =~= top4(x3, x2, x1, s0));
            assert(emp() + emp() =~= emp());
            lemma_compose(
                Seq::<Instr>::empty(),
                g1v,
                pre0,
                emp(),
                pre0,
                emp(),
                top4(x3, x2, x1, s0),
                emp(),
            );
            let a1 = Seq::<Instr>::empty() + g1v;
            lemma_toalt(s0);
            lemma_frame(ta, top1(s0), emp(), emp(), top1(s0), top3(x3, x2, x1), emp());
            assert(top3(x3, x2, x1) + top1(s0) =~= top4(x3, x2, x1, s0));
            assert(top3(x3, x2, x1) + emp() =~= top3(x3, x2, x1));
            assert(emp() + top1(s0) =~= top1(s0));
            lemma_compose(a1, ta, pre0, emp(), top4(x3, x2, x1, s0), emp(), top3(x3, x2, x1), top1(s0));
            let a2 = a1 + ta;
            assert(runs_to(g2v, top1(x1), emp(), top1(modp(2 * x1)), emp()));
            lemma_frame(g2v, top1(x1), emp(), top1(s1), emp(), top2(x3, x2), top1(s0));
            assert(top2(x3, x2) + top1(x1) =~= top3(x3, x2, x1));
            assert(top2(x3, x2) + top1(s1) =~= top3(x3, x2, s1));
            assert(top1(s0) + emp() =~= top1(s0));
            lemma_compose(a2, g2v, pre0, emp(), top3(x3, x2, x1), top1(s0), top3(x3, x2, s1), top1(s0));
            let a3 = a2 + g2v;
            lemma_toalt(s1);
            lemma_frame(ta, top1(s1), emp(), emp(), top1(s1), top2(x3, x2), top1(s0));
            assert(top2(x3, x2) + top1(s1) =~= top3(x3, x2, s1));
            assert(top2(x3, x2) + emp() =~= top2(x3, x2));
            assert(top1(s0) + top1(s1) =~= top2(s0, s1));
            lemma_compose(a3, ta, pre0, emp(), top3(x3, x2, s1), top1(s0), top2(x3, x2), top2(s0, s1));
            let a4 = a3 + ta;
            assert(runs_to(g3v, top1(x2), emp(), top1(modp(2 * x2)), emp()));
            lemma_frame(g3v, top1(x2), emp(), top1(s2), emp(), top1(x3), top2(s0, s1));
            assert(top1(x3) + top1(x2) =~= top2(x3, x2));
            assert(top1(x3) + top1(s2) =~= top2(x3, s2));
            assert(top2(s0, s1) + emp() =~= top2(s0, s1));
            lemma_compose(a4, g3v, pre0, emp(), top2(x3, x2), top2(s0, s1), top2(x3, s2), top2(s0, s1));
            let a5 = a4 + g3v;
            lemma_toalt(s2);
            lemma_frame(ta, top1(s2), emp(), emp(), top1(s2), top1(x3), top2(s0, s1));
            assert(top1(x3) + top1(s2) =~= top2(x3, s2));
            assert(top1(x3) + emp() =~= top1(x3));
            assert(top2(s0, s1) + top1(s2) =~= top3(s0, s1, s2));
            lemma_compose(a5, ta, pre0, emp(), top2(x3, s2), top2(s0, s1), top1(x3), top3(s0, s1, s2));
            let a6 = a5 + ta;
            assert(runs_to(g4v, top1(x3), emp(), top1(modp(2 * x3)), emp()));
            lemma_frame(g4v, top1(x3), emp(), top1(s3), emp(), emp(), top3(s0, s1, s2));
            assert(emp() + top1(x3) =~= top1(x3));
            assert(emp() + top1(s3) =~= top1(s3));
            assert(top3(s0, s1, s2) + emp() =~= top3(s0, s1, s2));
            lemma_compose(a6, g4v, pre0, emp(), top1(x3), top3(s0, s1, s2), top1(s3), top3(s0, s1, s2));
            let a7 = a6 + g4v;
            lemma_unpark3(a7, pre0, s3, s0, s1, s2);
        }
    }
    f
}

/// Move a QM31 element to the alt stack. The four lanes arrive on the alt
/// stack in reversed order, so a following retrieval restores them.
#[verifier::rlimit(100)]
pub fn qm31_toaltstack() -> (r: Fragment)
    ensures
        forall|l3: int, l2: int, l1: int, l0: int|
            #[trigger] runs_to(r@, top4(l3, l2, l1, l0), emp(), emp(), top4(l0, l1, l2, l3)),
{
    let mut f = Fragment::new();
    f.op(Op::ToAlt);
    f.op(Op::ToAlt);
    f.op(Op::ToAlt);
    f.op(Op::ToAlt);
    proof {
        let ta = seq![Instr::Op(Op::ToAlt)];
        assert(f@ =~= ((Seq::<Instr>::empty() + ta) + ta) + ta + ta);
        assert forall|l3: int, l2: int, l1: int, l0: int|
            #[trigger] runs_to(f@, top4(l3, l2, l1, l0), emp(), emp(), top4(l0, l1, l2, l3)) by {
            hint_toaltstack(f@, l3, l2, l1, l0);
        }
    }
    f
}

/// The chain behind `qm31_toaltstack`, one parked lane at a time.
#[verifier::rlimit(100)]
proof fn hint_toaltstack(fv: Seq<Instr>, l3: int, l2: int, l1: int, l0: int)
    requires
        fv == ((Seq::<Instr>::empty() + seq![Instr::Op(Op::ToAlt)]) + seq![Instr::Op(Op::ToAlt)])
            + seq![Instr::Op(Op::ToAlt)] + seq![Instr::Op(Op::ToAlt)],
    ensures
        runs_to(fv, top4(l3, l2, l1, l0), emp(), emp(), top4(l0, l1, l2, l3)),
{
    let ta = seq![Instr::Op(Op::ToAlt)];
    let pre0 = top4(l3, l2, l1, l0);
    lemma_nil(pre0, emp());
    lemma_toalt(l0);
    lemma_frame(ta, top1(l0), emp(), emp(), top1(l0), top3(l3, l2, l1), emp());
    assert(top3(l3, l2, l1) + top1(l0) =~= pre0);
    assert(top3(l3, l2, l1) + emp() =~= top3(l3, l2, l1));
    assert(emp() + top1(l0) =~= top1(l0));
    assert(emp() + emp() =~= emp());
    lemma_compose(Seq::<Instr>::empty(), ta, pre0, emp(), pre0, emp(), top3(l3, l2, l1), top1(l0));
    let a1 = Seq::<Instr>::empty() + ta;
    lemma_toalt(l1);
    lemma_frame(ta, top1(l1), emp(), emp(), top1(l1), top2(l3, l2), top1(l0));
    assert(top2(l3, l2) + top1(l1) =~= top3(l3, l2, l1));
    assert(top2(l3, l2) + emp() =~= top2(l3, l2));
    assert(top1(l0) + top1(l1) =~= top2(l0, l1));
    assert(top1(l0) + emp() =~= top1(l0));
    lemma_compose(a1, ta, pre0, emp(), top3(l3, l2, l1), top1(l0), top2(l3, l2), top2(l0, l1));
    let a2 = a1 + ta;
    lemma_toalt(l2);
    lemma_frame(ta, top1(l2), emp(), emp(), top1(l2), top1(l3), top2(l0, l1));
    assert(top1(l3) + top1(l2) =~= top2(l3, l2));
    assert(top1(l3) + emp() =~= top1(l3));
    assert(top2(l0, l1) + top1(l2) =~= top3(l0, l1, l2));
    assert(top2(l0, l1) + emp() =~= top2(l0, l1));
    lemma_compose(a2, ta, pre0, emp(), top2(l3, l2), top2(l0, l1), top1(l3), top3(l0, l1, l2));
    let a3 = a2 + ta;
    lemma_toalt(l3);
    lemma_frame(ta, top1(l3), emp(), emp(), top1(l3), emp(), top3(l0, l1, l2));
    assert(emp() + top1(l3) =~= top1(l3));
    assert(top3(l0, l1, l2) + top1(l3) =~= top4(l0, l1, l2, l3));
    assert(top3(l0, l1, l2) + emp() =~= top3(l0, l1, l2));
    lemma_compose(a3, ta, pre0, emp(), top1(l3), top3(l0, l1, l2), emp(), top4(l0, l1, l2, l3));
    assert(a3 + ta == fv);
}

/// Move a QM31 element back from the alt stack, restoring the layout that
/// `qm31_toaltstack` parked.
#[verifier::rlimit(100)]
pub fn qm31_fromaltstack() -> (r: Fragment)
    ensures
        forall|l3: int, l2: int, l1: int, l0: int|
            #[trigger] runs_to(r@, emp(), top4(l0, l1, l2, l3), top4(l3, l2, l1, l0), emp()),
{
    let mut f = Fragment::new();
    f.op(Op::FromAlt);
    f.op(Op::FromAlt);
    f.op(Op::FromAlt);
    f.op(Op::FromAlt);
    proof {
        let fa = seq![Instr::Op(Op::FromAlt)];
        assert(f@ =~= ((Seq::<Instr>::empty() + fa) + fa) + fa + fa);
        assert forall|l3: int, l2: int, l1: int, l0: int|
            #[trigger] runs_to(f@, emp(), top4(l0, l1, l2, l3), top4(l3, l2, l1, l0), emp()) by {
            hint_fromaltstack(f@, l3, l2, l1, l0);
        }
    }
    f
}

/// The chain behind `qm31_fromaltstack`, one retrieved lane at a time.
#[verifier::rlimit(100)]
proof fn hint_fromaltstack(fv: Seq<Instr>, l3: int, l2: int, l1: int, l0: int)
    requires
        fv == ((Seq::<Instr>::empty() + seq![Instr::Op(Op::FromAlt)]) + seq![
            Instr::Op(Op::FromAlt),
        ]) + seq![Instr::Op(Op::FromAlt)] + seq![Instr::Op(Op::FromAlt)],
    ensures
        runs_to(fv, emp(), top4(l0, l1, l2, l3), top4(l3, l2, l1, l0), emp()),
{
    let fa = seq![Instr::Op(Op::FromAlt)];
    let pa0 = top4(l0, l1, l2, l3);
    lemma_nil(emp(), pa0);
    lemma_fromalt(l3);
    lemma_frame(fa, emp(), top1(l3), top1(l3), emp(), emp(), top3(l0, l1, l2));
    assert(emp() + emp() =~= emp());
    assert(top3(l0, l1, l2) + top1(l3) =~= pa0);
    assert(emp() + top1(l3) =~= top1(l3));
    assert(top3(l0, l1, l2) + emp() =~= top3(l0, l1, l2));
    lemma_compose(Seq::<Instr>::empty(), fa, emp(), pa0, emp(), pa0, top1(l3), top3(l0, l1, l2));
    let a1 = Seq::<Instr>::empty() + fa;
    lemma_fromalt(l2);
    lemma_frame(fa, emp(), top1(l2), top1(l2), emp(), top1(l3), top2(l0, l1));
    assert(top1(l3) + emp() =~= top1(l3));
    assert(top2(l0, l1) + top1(l2) =~= top3(l0, l1, l2));
    assert(top1(l3) + top1(l2) =~= top2(l3, l2));
    assert(top2(l0, l1) + emp() =~= top2(l0, l1));
    lemma_compose(a1, fa, emp(), pa0, top1(l3), top3(l0, l1, l2), top2(l3, l2), top2(l0, l1));
    let a2 = a1 + fa;
    lemma_fromalt(l1);
    lemma_frame(fa, emp(), top1(l1), top1(l1), emp(), top2(l3, l2), top1(l0));
    assert(top2(l3, l2) + emp() =~= top2(l3, l2));
    assert(top1(l0) + top1(l1) =~= top2(l0, l1));
    assert(top2(l3, l2) + top1(l1) =~= top3(l3, l2, l1));
    assert(top1(l0) + emp() =~= top1(l0));
    lemma_compose(a2, fa, emp(), pa0, top2(l3, l2), top2(l0, l1), top3(l3, l2, l1), top1(l0));
    let a3 = a2 + fa;
    lemma_fromalt(l0);
    lemma_frame(fa, emp(), top1(l0), top1(l0), emp(), top3(l3, l2, l1), emp());
    assert(top3(l3, l2, l1) + emp() =~= top3(l3, l2, l1));
    assert(emp() + top1(l0) =~= top1(l0));
    assert(top3(l3, l2, l1) + top1(l0) =~= top4(l3, l2, l1, l0));
    lemma_compose(a3, fa, emp(), pa0, top3(l3, l2, l1), top1(l0), top4(l3, l2, l1, l0), emp());
    assert(a3 + fa == fv);
}

/// Copy the QM31 element `k` whole elements below the top onto the top of
/// the stack, lane order preserved.
#[verifier::rlimit(100)]
pub fn qm31_copy(k: usize) -> (r: Fragment)
    requires
        k <= 0x1000_0000,
    ensures
        forall|xs: Seq<int>|
            xs.len() == 4 * (k as int) + 4 ==> #[trigger] runs_to(
                r@,
                xs,
                emp(),
                xs + xs.take(4),
                emp(),
            ),
{
    let d: i64 = 4 * (k as i64) + 3;
    let mut f = Fragment::new();
    f.op(Op::Push(d));
    f.op(Op::Pick);
    f.op(Op::Push(d));
    f.op(Op::Pick);
    f.op(Op::Push(d));
    f.op(Op::Pick);
    f.op(Op::Push(d));
    f.op(Op::Pick);
    proof {
        let pk = seq![Instr::Op(Op::Push(d)), Instr::Op(Op::Pick)];
        assert(f@ =~= ((Seq::<Instr>::empty() + pk) + pk) + pk + pk);
        assert forall|xs: Seq<int>|
            xs.len() == 4 * (k as int) + 4 implies #[trigger] runs_to(
            f@,
            xs,
            emp(),
            xs + xs.take(4),
            emp(),
        ) by {
            let pk2 = seq![Instr::Op(Op::Push(d)), Instr::Op(Op::Pick)];
            lemma_nil(xs, emp());
            lemma_pick(xs, d);
            assert(xs[xs.len() - 1 - d as int] == xs[0]);
            lemma_compose(Seq::<Instr>::empty(), pk2, xs, emp(), xs, emp(), xs.push(xs[0]), emp());
            let a1 = Seq::<Instr>::empty() + pk2;
            let x1 = xs.push(xs[0]);
            lemma_pick(x1, d);
            assert(x1[x1.len() - 1 - d as int] == xs[1]);
            lemma_compose(a1, pk2, xs, emp(), x1, emp(), x1.push(xs[1]), emp());
            let a2 = a1 + pk2;
            let x2 = x1.push(xs[1]);
            lemma_pick(x2, d);
            assert(x2[x2.len() - 1 - d as int] == xs[2]);
            lemma_compose(a2, pk2, xs, emp(), x2, emp(), x2.push(xs[2]), emp());
            let a3 = a2 + pk2;
            let x3 = x2.push(xs[2]);
            lemma_pick(x3, d);
            assert(x3[x3.len() - 1 - d as int] == xs[3]);
            lemma_compose(a3, pk2, xs, emp(), x3, emp(), x3.push(xs[3]), emp());
            assert(x3.push(xs[3]) =~= xs + xs.take(4));
            assert(a3 + pk2 == f@);
        }
    }
    f
}

/// Move the QM31 element `k` whole elements below the top to the top of
/// the stack, lane order preserved.
#[verifier::rlimit(100)]
pub fn qm31_roll(k: usize) -> (r: Fragment)
    requires
        k <= 0x1000_0000,
    ensures
        forall|xs: Seq<int>|
            xs.len() == 4 * (k as int) + 4 ==> #[trigger] runs_to(
                r@,
                xs,
                emp(),
                xs.skip(4) + xs.take(4),
                emp(),
            ),
{
    let d: i64 = 4 * (k as i64) + 3;
    let mut f = Fragment::new();
    f.op(Op::Push(d));
    f.op(Op::Roll);
    f.op(Op::Push(d));
    f.op(Op::Roll);
    f.op(Op::Push(d));
    f.op(Op::Roll);
    f.op(Op::Push(d));
    f.op(Op::Roll);
    proof {
        let rl = seq![Instr::Op(Op::Push(d)), Instr::Op(Op::Roll)];
        assert(f@ =~= ((Seq::<Instr>::empty() + rl) + rl) + rl + rl);
        assert forall|xs: Seq<int>|
            xs.len() == 4 * (k as int) + 4 implies #[trigger] runs_to(
            f@,
            xs,
            emp(),
            xs.skip(4) + xs.take(4),
            emp(),
        ) by {
            let rl2 = seq![Instr::Op(Op::Push(d)), Instr::Op(Op::Roll)];
            let li = xs.len() as int;
            let c1 = xs.subrange(1, li) + xs.take(1);
            let c2 = xs.subrange(2, li) + xs.take(2);
            let c3 = xs.subrange(3, li) + xs.take(3);
            let c4 = xs.subrange(4, li) + xs.take(4);
            lemma_nil(xs, emp());
            lemma_roll(xs, d);
            assert(xs[li - 1 - d as int] == xs[0]);
            assert((xs.take(li - 1 - d as int) + xs.subrange(li - d as int, li)).push(xs[0]) =~= c1);
            lemma_compose(Seq::<Instr>::empty(), rl2, xs, emp(), xs, emp(), c1, emp());
            let a1 = Seq::<Instr>::empty() + rl2;
            lemma_roll(c1, d);
            assert(c1[c1.len() - 1 - d as int] == xs[1]);
            assert((c1.take(c1.len() - 1 - d as int) + c1.subrange(
                c1.len() - d as int,
                c1.len() as int,
            )).push(xs[1]) =~= c2);
            lemma_compose(a1, rl2, xs, emp(), c1, emp(), c2, emp());
            let a2 = a1 + rl2;
            lemma_roll(c2, d);
            assert(c2[c2.len() - 1 - d as int] == xs[2]);
            assert((c2.take(c2.len() - 1 - d as int) + c2.subrange(
                c2.len() - d as int,
                c2.len() as int,
            )).push(xs[2]) =~= c3);
            lemma_compose(a2, rl2, xs, emp(), c2, emp(), c3, emp());
            let a3 = a2 + rl2;
            lemma_roll(c3, d);
            assert(c3[c3.len() - 1 - d as int] == xs[3]);
            assert((c3.take(c3.len() - 1 - d as int) + c3.subrange(
                c3.len() - d as int,
                c3.len() as int,
            )).push(xs[3]) =~= c4);
            lemma_compose(a3, rl2, xs, emp(), c3, emp(), c4, emp());
            assert(xs.skip(4) + xs.take(4) =~= c4);
            assert(a3 + rl2 == f@);
        }
    }
    f
}

/// One scalar round of `qm31_mul_m31`: roll the deepest remaining lane to
/// the top, retrieve a parked copy of the scalar, and multiply.
#[verifier::rlimit(100)]
proof fn lemma_scalar_round(
    acc: Seq<Instr>,
    gmul: Seq<Instr>,
    pre0: Seq<int>,
    w: Seq<int>,
    xs: Seq<int>,
    e: int,
    alt0: Seq<int>,
    m: int,
)
    requires
        runs_to(acc, pre0, emp(), w + xs, alt0 + top1(e)),
        xs.len() == 4,
        runs_to(gmul, top2(xs[0], e), emp(), top1(m), emp()),
    ensures
        runs_to(
            ((acc + seq![Instr::Op(Op::Push(3)), Instr::Op(Op::Roll)]) + seq![
                Instr::Op(Op::FromAlt),
            ]) + gmul,
            pre0,
            emp(),
            w + xs.subrange(1, 4).push(m),
            alt0,
        ),
{
    let rl = seq![Instr::Op(Op::Push(3)), Instr::Op(Op::Roll)];
    let fa = seq![Instr::Op(Op::FromAlt)];
    let p1 = xs.subrange(1, 4).push(xs[0]);
    lemma_roll(xs, 3);
    assert((xs.take(0) + xs.subrange(1, 4)).push(xs[0]) =~= p1);
    lemma_frame(rl, xs, emp(), p1, emp(), w, alt0 + top1(e));
    assert((alt0 + top1(e)) + emp() =~= alt0 + top1(e));
    lemma_compose(acc, rl, pre0, emp(), w + xs, alt0 + top1(e), w + p1, alt0 + top1(e));
    let t1 = acc + rl;
    lemma_fromalt(e);
    lemma_frame(fa, emp(), top1(e), top1(e), emp(), w + p1, alt0);
    assert((w + p1) + emp() =~= w + p1);
    assert(alt0 + emp() =~= alt0);
    lemma_compose(t1, fa, pre0, emp(), w + p1, alt0 + top1(e), (w + p1) + top1(e), alt0);
    let t2 = t1 + fa;
    lemma_frame(gmul, top2(xs[0], e), emp(), top1(m), emp(), w + xs.subrange(1, 4), alt0);
    assert((w + xs.subrange(1, 4)) + top2(xs[0], e) =~= (w + p1) + top1(e));
    assert((w + xs.subrange(1, 4)) + top1(m) =~= w + xs.subrange(1, 4).push(m));
    lemma_compose(
        t2,
        gmul,
        pre0,
        emp(),
        (w + p1) + top1(e),
        alt0,
        w + xs.subrange(1, 4).push(m),
        alt0,
    );
}

/// Multiply a QM31 element by a base-field scalar, lane by lane: consumes
/// the element and the scalar on top and leaves the scaled element.
#[verifier::rlimit(100)]
pub fn qm31_mul_m31() -> (r: Fragment)
    ensures
        forall|x3: int, x2: int, x1: int, x0: int, e: int|
            is_m31(x3) && is_m31(x2) && is_m31(x1) && is_m31(x0) && is_m31(e) ==> #[trigger] runs_to(
                r@,
                top5(x3, x2, x1, x0, e),
                emp(),
                top4(modp(x3 * e), modp(x2 * e), modp(x1 * e), modp(x0 * e)),
                emp(),
            ),
{
    let mut f = Fragment::new();
    f.op(Op::Dup);
    f.op(Op::Dup);
    f.op(Op::Dup);
    f.op(Op::ToAlt);
    f.op(Op::ToAlt);
    f.op(Op::ToAlt);
    f.op(Op::Push(4));
    f.op(Op::Roll);
    let g1 = m31_mul();
    let ghost g1v = g1@;
    f.splice(g1);
    f.op(Op::Push(3));
    f.op(Op::Roll);
    f.op(Op::FromAlt);
    let g2 = m31_mul();
    let ghost g2v = g2@;
    f.splice(g2);
    f.op(Op::Push(3));
    f.op(Op::Roll);
    f.op(Op::FromAlt);
    let g3 = m31_mul();
    let ghost g3v = g3@;
    f.splice(g3);
    f.op(Op::Push(3));
    f.op(Op::Roll);
    f.op(Op::FromAlt);
    let g4 = m31_mul();
    let ghost g4v = g4@;
    f.splice(g4);
    proof {
        let du = seq![Instr::Op(Op::Dup)];
        let ta = seq![Instr::Op(Op::ToAlt)];
        let r4 = seq![Instr::Op(Op::Push(4)), Instr::Op(Op::Roll)];
        let rl = seq![Instr::Op(Op::Push(3)), Instr::Op(Op::Roll)];
        let fa = seq![Instr::Op(Op::FromAlt)];
        assert(f@ =~= ((((((((((((Seq::<Instr>::empty() + du) + du) + du) + ta) + ta) + ta) + r4)
            + g1v) + rl) + fa) + g2v + rl + fa) + g3v + rl + fa) + g4v);
        assert forall|x3: int, x2: int, x1: int, x0: int, e: int|
            is_m31(x3) && is_m31(x2) && is_m31(x1) && is_m31(x0) && is_m31(e) implies #[trigger] runs_to(
            f@,
            top5(x3, x2, x1, x0, e),
            emp(),
            top4(modp(x3 * e), modp(x2 * e), modp(x1 * e), modp(x0 * e)),
            emp(),
        ) by {
            let pre0 = top5(x3, x2, x1, x0, e);
            let w4 = top4(x3, x2, x1, x0);
            let m3 = modp(e * x3);
            let m2 = modp(x2 * e);
            let m1 = modp(x1 * e);
            let m0 = modp(x0 * e);
            lemma_nil(pre0, emp());
            // three copies of the scalar
            lemma_dup(e);
            lemma_frame(du, top1(e), emp(), top2(e, e), emp(), w4, emp());
            assert(w4 + top1(e) =~= pre0);
            assert(emp() + emp() =~= emp());
            lemma_compose(Seq::<Instr>::empty(), du, pre0, emp(), pre0, emp(), w4 + top2(e, e), emp());
            let a1 = Seq::<Instr>::empty() + du;
            lemma_frame(du, top1(e), emp(), top2(e, e), emp(), w4 + top1(e), emp());
            assert((w4 + top1(e)) + top1(e) =~= w4 + top2(e, e));
            assert((w4 + top1(e)) + top2(e, e) =~= w4 + top3(e, e, e));
            lemma_compose(a1, du, pre0, emp(), w4 + top2(e, e), emp(), w4 + top3(e, e, e), emp());
            let a2 = a1 + du;
            lemma_frame(du, top1(e), emp(), top2(e, e), emp(), w4 + top2(e, e), emp());
            assert((w4 + top2(e, e)) + top1(e) =~= w4 + top3(e, e, e));
            assert((w4 + top2(e, e)) + top2(e, e) =~= w4 + top4(e, e, e, e));
            lemma_compose(a2, du, pre0, emp(), w4 + top3(e, e, e), emp(), w4 + top4(e, e, e, e), emp());
            let a3 = a2 + du;
            // park them
            lemma_toalt(e);
            lemma_frame(ta, top1(e), emp(), emp(), top1(e), w4 + top3(e, e, e), emp());
            assert((w4 + top3(e, e, e)) + top1(e) =~= w4 + top4(e, e, e, e));
            assert((w4 + top3(e, e, e)) + emp() =~= w4 + top3(e, e, e));
            assert(emp() + top1(e) =~= top1(e));
            lemma_compose(a3, ta, pre0, emp(), w4 + top4(e, e, e, e), emp(), w4 + top3(e, e, e), top1(e));
            let a4 = a3 + ta;
            lemma_frame(ta, top1(e), emp(), emp(), top1(e), w4 + top2(e, e), top1(e));
            assert((w4 + top2(e, e)) + top1(e) =~= w4 + top3(e, e, e));
            assert((w4 + top2(e, e)) + emp() =~= w4 + top2(e, e));
            assert(top1(e) + top1(e) =~= top2(e, e));
            assert(top1(e) + emp() =~= top1(e));
            lemma_compose(a4, ta, pre0, emp(), w4 + top3(e, e, e), top1(e), w4 + top2(e, e), top2(e, e));
            let a5 = a4 + ta;
            lemma_frame(ta, top1(e), emp(), emp(), top1(e), w4 + top1(e), top2(e, e));
            assert((w4 + top1(e)) + top1(e) =~= w4 + top2(e, e));
            assert((w4 + top1(e)) + emp() =~= w4 + top1(e));
            assert(top2(e, e) + top1(e) =~= top3(e, e, e));
            assert(top2(e, e) + emp() =~= top2(e, e));
            lemma_compose(a5, ta, pre0, emp(), w4 + top2(e, e), top2(e, e), w4 + top1(e), top3(e, e, e));
            let a6 = a5 + ta;
            // first lane
            lemma_roll(top5(x3, x2, x1, x0, e), 4);
            assert((top5(x3, x2, x1, x0, e).take(0) + top5(x3, x2, x1, x0, e).subrange(1, 5)).push(
                x3,
            ) =~= top5(x2, x1, x0, e, x3));
            lemma_frame(r4, top5(x3, x2, x1, x0, e), emp(), top5(x2, x1, x0, e, x3), emp(), emp(), top3(e, e, e));
            assert(emp() + top5(x3, x2, x1, x0, e) =~= w4 + top1(e));
            assert(emp() + top5(x2, x1, x0, e, x3) =~= top5(x2, x1, x0, e, x3));
            assert(top3(e, e, e) + emp() =~= top3(e, e, e));
            lemma_compose(a6, r4, pre0, emp(), w4 + top1(e), top3(e, e, e), top5(x2, x1, x0, e, x3), top3(e, e, e));
            let a7 = a6 + r4;
            assert(runs_to(g1v, top2(e, x3), emp(), top1(modp(e * x3)), emp()));
            lemma_frame(g1v, top2(e, x3), emp(), top1(m3), emp(), top3(x2, x1, x0), top3(e, e, e));
            assert(top3(x2, x1, x0) + top2(e, x3) =~= top5(x2, x1, x0, e, x3));
            assert(top3(x2, x1, x0) + top1(m3) =~= top4(x2, x1, x0, m3));
            lemma_compose(a7, g1v, pre0, emp(), top5(x2, x1, x0, e, x3), top3(e, e, e), top4(x2, x1, x0, m3), top3(e, e, e));
            let a8 = a7 + g1v;
            // remaining lanes, one scalar round each
            assert(emp() + top4(x2, x1, x0, m3) =~= top4(x2, x1, x0, m3));
            assert(top2(e, e) + top1(e) =~= top3(e, e, e));
            assert(runs_to(g2v, top2(x2, e), emp(), top1(modp(x2 * e)), emp()));
            lemma_scalar_round(a8, g2v, pre0, emp(), top4(x2, x1, x0, m3), e, top2(e, e), m2);
            let a9 = ((a8 + rl) + fa) + g2v;
            assert(emp() + top4(x2, x1, x0, m3).subrange(1, 4).push(m2) =~= top4(x1, x0, m3, m2));
            assert(top1(e) + top1(e) =~= top2(e, e));
            assert(runs_to(g3v, top2(x1, e), emp(), top1(modp(x1 * e)), emp()));
            lemma_scalar_round(a9, g3v, pre0, emp(), top4(x1, x0, m3, m2), e, top1(e), m1);
            let a10 = ((a9 + rl) + fa) + g3v;
            assert(emp() + top4(x1, x0, m3, m2).subrange(1, 4).push(m1) =~= top4(x0, m3, m2, m1));
            assert(emp() + top1(e) =~= top1(e));
            assert(runs_to(g4v, top2(x0, e), emp(), top1(modp(x0 * e)), emp()));
            lemma_scalar_round(a10, g4v, pre0, emp(), top4(x0, m3, m2, m1), e, emp(), m0);
            let a11 = ((a10 + rl) + fa) + g4v;
            assert(emp() + top4(x0, m3, m2, m1).subrange(1, 4).push(m0) =~= top4(m3, m2, m1, m0));
            assert(a11 == f@);
            assert(m3 == modp(x3 * e));
        }
    }
    f
}

/// Verify that two QM31 elements are lane-for-lane equal, consuming both:
/// the machine run succeeds exactly on equal elements and fails the whole
/// script on any differing lane.
#[verifier::rlimit(100)]
pub fn qm31_equalverify() -> (r: Fragment)
    ensures
        forall|a: int, b: int, c: int, d: int|
            #[trigger] runs_to(r@, top8(a, b, c, d, a, b, c, d), emp(), emp(), emp()),
        forall|x3: int, x2: int, x1: int, x0: int, y3: int, y2: int, y1: int, y0: int|
            !(x3 == y3 && x2 == y2 && x1 == y1 && x0 == y0) ==> #[trigger] fails_on(
                r@,
                top8(x3, x2, x1, x0, y3, y2, y1, y0),
                emp(),
            ),
{
    let mut f = Fragment::new();
    f.op(Op::Push(4));
    f.op(Op::Roll);
    f.op(Op::EqualVerify);
    f.op(Op::Push(3));
    f.op(Op::Roll);
    f.op(Op::EqualVerify);
    f.op(Op::Push(2));
    f.op(Op::Roll);
    f.op(Op::EqualVerify);
    f.op(Op::EqualVerify);
    proof {
        let r4 = seq![Instr::Op(Op::Push(4)), Instr::Op(Op::Roll)];
        let r3 = seq![Instr::Op(Op::Push(3)), Instr::Op(Op::Roll)];
        let r2 = seq![Instr::Op(Op::Push(2)), Instr::Op(Op::Roll)];
        let ev = seq![Instr::Op(Op::EqualVerify)];
        assert(f@ =~= ((((((Seq::<Instr>::empty() + r4) + ev) + r3) + ev) + r2) + ev) + ev);
        assert forall|a: int, b: int, c: int, d: int|
            #[trigger] runs_to(f@, top8(a, b, c, d, a, b, c, d), emp(), emp(), emp()) by {
            let pre0 = top8(a, b, c, d, a, b, c, d);
            lemma_nil(pre0, emp());
            lemma_roll(top5(d, a, b, c, d), 4);
            assert((top5(d, a, b, c, d).take(0) + top5(d, a, b, c, d).subrange(1, 5)).push(d) =~= top5(a, b, c, d, d));
            lemma_frame(r4, top5(d, a, b, c, d), emp(), top5(a, b, c, d, d), emp(), top3(a, b, c), emp());
            assert(top3(a, b, c) + top5(d, a, b, c, d) =~= pre0);
            assert(top3(a, b, c) + top5(a, b, c, d, d) =~= top8(a, b, c, a, b, c, d, d));
            assert(emp() + emp() =~= emp());
            lemma_compose(Seq::<Instr>::empty(), r4, pre0, emp(), pre0, emp(), top8(a, b, c, a, b, c, d, d), emp());
            let a1 = Seq::<Instr>::empty() + r4;
            lemma_equalverify(d);
            lemma_frame(ev, top2(d, d), emp(), emp(), emp(), top6(a, b, c, a, b, c), emp());
            assert(top6(a, b, c, a, b, c) + top2(d, d) =~= top8(a, b, c, a, b, c, d, d));
            assert(top6(a, b, c, a, b, c) + emp() =~= top6(a, b, c, a, b, c));
            lemma_compose(a1, ev, pre0, emp(), top8(a, b, c, a, b, c, d, d), emp(), top6(a, b, c, a, b, c), emp());
            let a2 = a1 + ev;
            lemma_roll(top4(c, a, b, c), 3);
            assert((top4(c, a, b, c).take(0) + top4(c, a, b, c).subrange(1, 4)).push(c) =~= top4(a, b, c, c));
            lemma_frame(r3, top4(c, a, b, c), emp(), top4(a, b, c, c), emp(), top2(a, b), emp());
            assert(top2(a, b) + top4(c, a, b, c) =~= top6(a, b, c, a, b, c));
            assert(top2(a, b) + top4(a, b, c, c) =~= top6(a, b, a, b, c, c));
            lemma_compose(a2, r3, pre0, emp(), top6(a, b, c, a, b, c), emp(), top6(a, b, a, b, c, c), emp());
            let a3 = a2 + r3;
            lemma_equalverify(c);
            lemma_frame(ev, top2(c, c), emp(), emp(), emp(), top4(a, b, a, b), emp());
            assert(top4(a, b, a, b) + top2(c, c) =~= top6(a, b, a, b, c, c));
            assert(top4(a, b, a, b) + emp() =~= top4(a, b, a, b));
            lemma_compose(a3, ev, pre0, emp(), top6(a, b, a, b, c, c), emp(), top4(a, b, a, b), emp());
            let a4 = a3 + ev;
            lemma_roll(top3(b, a, b), 2);
            assert((top3(b, a, b).take(0) + top3(b, a, b).subrange(1, 3)).push(b) =~= top3(a, b, b));
            lemma_frame(r2, top3(b, a, b), emp(), top3(a, b, b), emp(), top1(a), emp());
            assert(top1(a) + top3(b, a, b) =~= top4(a, b, a, b));
            assert(top1(a) + top3(a, b, b) =~= top4(a, a, b, b));
            lemma_compose(a4, r2, pre0, emp(), top4(a, b, a, b), emp(), top4(a, a, b, b), emp());
            let a5 = a4 + r2;
            lemma_equalverify(b);
            lemma_frame(ev, top2(b, b), emp(), emp(), emp(), top2(a, a), emp());
            assert(top2(a, a) + top2(b, b) =~= top4(a, a, b, b));
            assert(top2(a, a) + emp() =~= top2(a, a));
            lemma_compose(a5, ev, pre0, emp(), top4(a, a, b, b), emp(), top2(a, a), emp());
            let a6 = a5 + ev;
            lemma_equalverify(a);
            lemma_compose(a6, ev, pre0, emp(), top2(a, a), emp(), emp(), emp());
            assert(a6 + ev == f@);
        }
        assert forall|x3: int, x2: int, x1: int, x0: int, y3: int, y2: int, y1: int, y0: int|
            !(x3 == y3 && x2 == y2 && x1 == y1 && x0 == y0) implies #[trigger] fails_on(
            f@,
            top8(x3, x2, x1, x0, y3, y2, y1, y0),
            emp(),
        ) by {
            let pre0 = top8(x3, x2, x1, x0, y3, y2, y1, y0);
            lemma_nil(pre0, emp());
            lemma_roll(top5(x0, y3, y2, y1, y0), 4);
            assert((top5(x0, y3, y2, y1, y0).take(0) + top5(x0, y3, y2, y1, y0).subrange(1, 5)).push(
                x0,
            ) =~= top5(y3, y2, y1, y0, x0));
            lemma_frame(r4, top5(x0, y3, y2, y1, y0), emp(), top5(y3, y2, y1, y0, x0), emp(), top3(x3, x2, x1), emp());
            assert(top3(x3, x2, x1) + top5(x0, y3, y2, y1, y0) =~= pre0);
            assert(top3(x3, x2, x1) + top5(y3, y2, y1, y0, x0) =~= top8(x3, x2, x1, y3, y2, y1, y0, x0));
            assert(emp() + emp() =~= emp());
            lemma_compose(Seq::<Instr>::empty(), r4, pre0, emp(), pre0, emp(), top8(x3, x2, x1, y3, y2, y1, y0, x0), emp());
            let a1 = Seq::<Instr>::empty() + r4;
            if x0 != y0 {
                lemma_equalverify_fails(y0, x0);
                lemma_frame_fails(ev, top2(y0, x0), emp(), top6(x3, x2, x1, y3, y2, y1), emp());
                assert(top6(x3, x2, x1, y3, y2, y1) + top2(y0, x0) =~= top8(x3, x2, x1, y3, y2, y1, y0, x0));
                lemma_compose_fails(a1, ev, pre0, emp(), top8(x3, x2, x1, y3, y2, y1, y0, x0), emp());
                lemma_fails_prefix(a1 + ev, (((r3 + ev) + r2) + ev) + ev, pre0, emp());
                assert((a1 + ev) + ((((r3 + ev) + r2) + ev) + ev) =~= f@);
            } else {
                lemma_equalverify(x0);
                lemma_frame(ev, top2(x0, x0), emp(), emp(), emp(), top6(x3, x2, x1, y3, y2, y1), emp());
                assert(top6(x3, x2, x1, y3, y2, y1) + top2(x0, x0) =~= top8(x3, x2, x1, y3, y2, y1, y0, x0));
                assert(top6(x3, x2, x1, y3, y2, y1) + emp() =~= top6(x3, x2, x1, y3, y2, y1));
                lemma_compose(a1, ev, pre0, emp(), top8(x3, x2, x1, y3, y2, y1, y0, x0), emp(), top6(x3, x2, x1, y3, y2, y1), emp());
                let a2 = a1 + ev;
                lemma_roll(top4(x1, y3, y2, y1), 3);
                assert((top4(x1, y3, y2, y1).take(0) + top4(x1, y3, y2, y1).subrange(1, 4)).push(x1)
                    =~= top4(y3, y2, y1, x1));
                lemma_frame(r3, top4(x1, y3, y2, y1), emp(), top4(y3, y2, y1, x1), emp(), top2(x3, x2), emp());
                assert(top2(x3, x2) + top4(x1, y3, y2, y1) =~= top6(x3, x2, x1, y3, y2, y1));
                assert(top2(x3, x2) + top4(y3, y2, y1, x1) =~= top6(x3, x2, y3, y2, y1, x1));
                lemma_compose(a2, r3, pre0, emp(), top6(x3, x2, x1, y3, y2, y1), emp(), top6(x3, x2, y3, y2, y1, x1), emp());
                let a3 = a2 + r3;
                if x1 != y1 {
                    lemma_equalverify_fails(y1, x1);
                    lemma_frame_fails(ev, top2(y1, x1), emp(), top4(x3, x2, y3, y2), emp());
                    assert(top4(x3, x2, y3, y2) + top2(y1, x1) =~= top6(x3, x2, y3, y2, y1, x1));
                    lemma_compose_fails(a3, ev, pre0, emp(), top6(x3, x2, y3, y2, y1, x1), emp());
                    lemma_fails_prefix(a3 + ev, ((r2 + ev) + ev), pre0, emp());
                    assert((a3 + ev) + ((r2 + ev) + ev) =~= f@);
                } else {
                    lemma_equalverify(x1);
                    lemma_frame(ev, top2(x1, x1), emp(), emp(), emp(), top4(x3, x2, y3, y2), emp());
                    assert(top4(x3, x2, y3, y2) + top2(x1, x1) =~= top6(x3, x2, y3, y2, y1, x1));
                    assert(top4(x3, x2, y3, y2) + emp() =~= top4(x3, x2, y3, y2));
                    lemma_compose(a3, ev, pre0, emp(), top6(x3, x2, y3, y2, y1, x1), emp(), top4(x3, x2, y3, y2), emp());
                    let a4 = a3 + ev;
                    lemma_roll(top3(x2, y3, y2), 2);
                    assert((top3(x2, y3, y2).take(0) + top3(x2, y3, y2).subrange(1, 3)).push(x2)
                        =~= top3(y3, y2, x2));
                    lemma_frame(r2, top3(x2, y3, y2), emp(), top3(y3, y2, x2), emp(), top1(x3), emp());
                    assert(top1(x3) + top3(x2, y3, y2) =~= top4(x3, x2, y3, y2));
                    assert(top1(x3) + top3(y3, y2, x2) =~= top4(x3, y3, y2, x2));
                    lemma_compose(a4, r2, pre0, emp(), top4(x3, x2, y3, y2), emp(), top4(x3, y3, y2, x2), emp());
                    let a5 = a4 + r2;
                    if x2 != y2 {
                        lemma_equalverify_fails(y2, x2);
                        lemma_frame_fails(ev, top2(y2, x2), emp(), top2(x3, y3), emp());
                        assert(top2(x3, y3) + top2(y2, x2) =~= top4(x3, y3, y2, x2));
                        lemma_compose_fails(a5, ev, pre0, emp(), top4(x3, y3, y2, x2), emp());
                        lemma_fails_prefix(a5 + ev, ev, pre0, emp());
                        assert((a5 + ev) + ev =~= f@);
                    } else {
                        lemma_equalverify(x2);
                        lemma_frame(ev, top2(x2, x2), emp(), emp(), emp(), top2(x3, y3), emp());
                        assert(top2(x3, y3) + top2(x2, x2) =~= top4(x3, y3, y2, x2));
                        assert(top2(x3, y3) + emp() =~= top2(x3, y3));
                        lemma_compose(a5, ev, pre0, emp(), top4(x3, y3, y2, x2), emp(), top2(x3, y3), emp());
                        let a6 = a5 + ev;
                        lemma_equalverify_fails(x3, y3);
                        lemma_compose_fails(a6, ev, pre0, emp(), top2(x3, y3), emp());
                        assert(a6 + ev == f@);
                    }
                }
            }
        }
    }
    f
}

/// First half of the QM31 product's lane remix: double both components of
/// the high product, keeping the originals, and form `2*h_r - h_i`.
#[verifier::rlimit(100)]
proof fn lemma_remix_head(
    acc: Seq<Instr>,
    gd1: Seq<Instr>,
    gd2: Seq<Instr>,
    gsb: Seq<Instr>,
    pre0: Seq<int>,
    hi: int, hr: int, mi: int, mr: int, li: int, lr: int,
    di: int, dr: int, w1: int,
)
    requires
        runs_to(acc, pre0, emp(), top6(hi, hr, mi, mr, li, lr), emp()),
        runs_to(gd1, top1(hr), emp(), top1(dr), emp()),
        runs_to(gd2, top1(hi), emp(), top1(di), emp()),
        runs_to(gsb, top2(dr, hi), emp(), top1(w1), emp()),
    ensures
        runs_to(
            ((((((((acc + seq![Instr::Op(Op::Push(4)), Instr::Op(Op::Roll)]) + seq![
                Instr::Op(Op::Dup),
            ]) + gd1) + seq![Instr::Op(Op::Push(6)), Instr::Op(Op::Roll)]) + seq![
                Instr::Op(Op::Dup),
            ]) + gd2) + seq![Instr::Op(Op::Rot)]) + seq![Instr::Op(Op::Rot)]) + gsb,
            pre0,
            emp(),
            top5(mi, mr, li, lr, hr) + top2(di, w1),
            emp(),
        ),
{
    let r4 = seq![Instr::Op(Op::Push(4)), Instr::Op(Op::Roll)];
    let r6 = seq![Instr::Op(Op::Push(6)), Instr::Op(Op::Roll)];
    let du = seq![Instr::Op(Op::Dup)];
    let rt = seq![Instr::Op(Op::Rot)];
    lemma_roll(top5(hr, mi, mr, li, lr), 4);
    assert((top5(hr, mi, mr, li, lr).take(0) + top5(hr, mi, mr, li, lr).subrange(1, 5)).push(hr)
        =~= top5(mi, mr, li, lr, hr));
    lemma_frame(r4, top5(hr, mi, mr, li, lr), emp(), top5(mi, mr, li, lr, hr), emp(), top1(hi), emp());
    assert(top1(hi) + top5(hr, mi, mr, li, lr) =~= top6(hi, hr, mi, mr, li, lr));
    assert(top1(hi) + top5(mi, mr, li, lr, hr) =~= top6(hi, mi, mr, li, lr, hr));
    assert(emp() + emp() =~= emp());
    lemma_compose(
        acc, r4, pre0, emp(), top6(hi, hr, mi, mr, li, lr), emp(), top6(hi, mi, mr, li, lr, hr),
        emp(),
    );
    let t1 = acc + r4;
    lemma_dup(hr);
    lemma_frame(du, top1(hr), emp(), top2(hr, hr), emp(), top5(hi, mi, mr, li, lr), emp());
    assert(top5(hi, mi, mr, li, lr) + top1(hr) =~= top6(hi, mi, mr, li, lr, hr));
    assert(top5(hi, mi, mr, li, lr) + top2(hr, hr) =~= top6(hi, mi, mr, li, lr, hr) + top1(hr));
    lemma_compose(
        t1, du, pre0, emp(), top6(hi, mi, mr, li, lr, hr), emp(),
        top6(hi, mi, mr, li, lr, hr) + top1(hr), emp(),
    );
    let t2 = t1 + du;
    lemma_frame(gd1, top1(hr), emp(), top1(dr), emp(), top6(hi, mi, mr, li, lr, hr), emp());
    lemma_compose(
        t2, gd1, pre0, emp(), top6(hi, mi, mr, li, lr, hr) + top1(hr), emp(),
        top6(hi, mi, mr, li, lr, hr) + top1(dr), emp(),
    );
    let t3 = t2 + gd1;
    lemma_roll(top6(hi, mi, mr, li, lr, hr) + top1(dr), 6);
    assert((top6(hi, mi, mr, li, lr, hr) + top1(dr)).len() == 7);
    assert((top6(hi, mi, mr, li, lr, hr) + top1(dr))[0] == hi);
    assert(((top6(hi, mi, mr, li, lr, hr) + top1(dr)).take(0) + (top6(hi, mi, mr, li, lr, hr)
        + top1(dr)).subrange(1, 7)).push(hi) =~= top6(mi, mr, li, lr, hr, dr) + top1(hi));
    lemma_compose(
        t3, r6, pre0, emp(), top6(hi, mi, mr, li, lr, hr) + top1(dr), emp(),
        top6(mi, mr, li, lr, hr, dr) + top1(hi), emp(),
    );
    let t4 = t3 + r6;
    lemma_dup(hi);
    lemma_frame(du, top1(hi), emp(), top2(hi, hi), emp(), top6(mi, mr, li, lr, hr, dr), emp());
    assert(top6(mi, mr, li, lr, hr, dr) + top1(hi) =~= top6(mi, mr, li, lr, hr, dr) + top1(hi));
    assert(top6(mi, mr, li, lr, hr, dr) + top2(hi, hi) =~= (top6(mi, mr, li, lr, hr, dr) + top1(
        hi,
    )) + top1(hi));
    lemma_compose(
        t4, du, pre0, emp(), top6(mi, mr, li, lr, hr, dr) + top1(hi), emp(),
        top6(mi, mr, li, lr, hr, dr) + top2(hi, hi), emp(),
    );
    let t5 = t4 + du;
    lemma_frame(gd2, top1(hi), emp(), top1(di), emp(), top6(mi, mr, li, lr, hr, dr) + top1(hi), emp());
    assert((top6(mi, mr, li, lr, hr, dr) + top1(hi)) + top1(hi) =~= top6(mi, mr, li, lr, hr, dr)
        + top2(hi, hi));
    assert((top6(mi, mr, li, lr, hr, dr) + top1(hi)) + top1(di) =~= top6(mi, mr, li, lr, hr, dr)
        + top2(hi, di));
    lemma_compose(
        t5, gd2, pre0, emp(), top6(mi, mr, li, lr, hr, dr) + top2(hi, hi), emp(),
        top6(mi, mr, li, lr, hr, dr) + top2(hi, di), emp(),
    );
    let t6 = t5 + gd2;
    lemma_rot(dr, hi, di);
    lemma_frame(rt, top3(dr, hi, di), emp(), top3(hi, di, dr), emp(), top5(mi, mr, li, lr, hr), emp());
    assert(top5(mi, mr, li, lr, hr) + top3(dr, hi, di) =~= top6(mi, mr, li, lr, hr, dr) + top2(
        hi,
        di,
    ));
    assert(top5(mi, mr, li, lr, hr) + top3(hi, di, dr) =~= top5(mi, mr, li, lr, hr) + top3(
        hi,
        di,
        dr,
    ));
    lemma_compose(
        t6, rt, pre0, emp(), top6(mi, mr, li, lr, hr, dr) + top2(hi, di), emp(),
        top5(mi, mr, li, lr, hr) + top3(hi, di, dr), emp(),
    );
    let t7 = t6 + rt;
    lemma_rot(hi, di, dr);
    lemma_frame(rt, top3(hi, di, dr), emp(), top3(di, dr, hi), emp(), top5(mi, mr, li, lr, hr), emp());
    lemma_compose(
        t7, rt, pre0, emp(), top5(mi, mr, li, lr, hr) + top3(hi, di, dr), emp(),
        top5(mi, mr, li, lr, hr) + top3(di, dr, hi), emp(),
    );
    let t8 = t7 + rt;
    lemma_frame(gsb, top2(dr, hi), emp(), top1(w1), emp(), top5(mi, mr, li, lr, hr) + top1(di), emp());
    assert((top5(mi, mr, li, lr, hr) + top1(di)) + top2(dr, hi) =~= top5(mi, mr, li, lr, hr)
        + top3(di, dr, hi));
    assert((top5(mi, mr, li, lr, hr) + top1(di)) + top1(w1) =~= top5(mi, mr, li, lr, hr) + top2(
        di,
        w1,
    ));
    lemma_compose(
        t8, gsb, pre0, emp(), top5(mi, mr, li, lr, hr) + top3(di, dr, hi), emp(),
        top5(mi, mr, li, lr, hr) + top2(di, w1), emp(),
    );
}

/// Second half of the remix: fold the low product and the doubled high
/// components into the result's low CM31 pair and lay out the four lanes.
#[verifier::rlimit(100)]
proof fn lemma_remix_tail(
    acc: Seq<Instr>,
    ga1: Seq<Instr>,
    ga2: Seq<Instr>,
    ga3: Seq<Instr>,
    pre0: Seq<int>,
    mi: int, mr: int, li: int, lr: int, hr: int,
    di: int, w1: int, rr: int, w2: int, ri: int,
)
    requires
        runs_to(acc, pre0, emp(), top5(mi, mr, li, lr, hr) + top2(di, w1), emp()),
        runs_to(ga1, top2(w1, lr), emp(), top1(rr), emp()),
        runs_to(ga2, top2(hr, di), emp(), top1(w2), emp()),
        runs_to(ga3, top2(w2, li), emp(), top1(ri), emp()),
    ensures
        runs_to(
            (((((((acc + seq![Instr::Op(Op::Push(3)), Instr::Op(Op::Roll)]) + ga1) + seq![
                Instr::Op(Op::Rot),
            ]) + seq![Instr::Op(Op::Rot)]) + ga2) + seq![Instr::Op(Op::Rot)]) + ga3) + seq![
                Instr::Op(Op::Swap),
            ],
            pre0,
            emp(),
            top4(mi, mr, ri, rr),
            emp(),
        ),
{
    let r3 = seq![Instr::Op(Op::Push(3)), Instr::Op(Op::Roll)];
    let rt = seq![Instr::Op(Op::Rot)];
    let sw = seq![Instr::Op(Op::Swap)];
    lemma_roll(top4(lr, hr, di, w1), 3);
    assert((top4(lr, hr, di, w1).take(0) + top4(lr, hr, di, w1).subrange(1, 4)).push(lr) =~= top4(
        hr,
        di,
        w1,
        lr,
    ));
    lemma_frame(r3, top4(lr, hr, di, w1), emp(), top4(hr, di, w1, lr), emp(), top3(mi, mr, li), emp());
    assert(top3(mi, mr, li) + top4(lr, hr, di, w1) =~= top5(mi, mr, li, lr, hr) + top2(di, w1));
    assert(top3(mi, mr, li) + top4(hr, di, w1, lr) =~= top3(mi, mr, li) + top4(hr, di, w1, lr));
    assert(emp() + emp() =~= emp());
    lemma_compose(
        acc, r3, pre0, emp(), top5(mi, mr, li, lr, hr) + top2(di, w1), emp(),
        top3(mi, mr, li) + top4(hr, di, w1, lr), emp(),
    );
    let t1 = acc + r3;
    lemma_frame(ga1, top2(w1, lr), emp(), top1(rr), emp(), top3(mi, mr, li) + top2(hr, di), emp());
    assert((top3(mi, mr, li) + top2(hr, di)) + top2(w1, lr) =~= top3(mi, mr, li) + top4(
        hr,
        di,
        w1,
        lr,
    ));
    assert((top3(mi, mr, li) + top2(hr, di)) + top1(rr) =~= top6(mi, mr, li, hr, di, rr));
    lemma_compose(
        t1, ga1, pre0, emp(), top3(mi, mr, li) + top4(hr, di, w1, lr), emp(),
        top6(mi, mr, li, hr, di, rr), emp(),
    );
    let t2 = t1 + ga1;
    lemma_rot(hr, di, rr);
    lemma_frame(rt, top3(hr, di, rr), emp(), top3(di, rr, hr), emp(), top3(mi, mr, li), emp());
    assert(top3(mi, mr, li) + top3(hr, di, rr) =~= top6(mi, mr, li, hr, di, rr));
    assert(top3(mi, mr, li) + top3(di, rr, hr) =~= top6(mi, mr, li, di, rr, hr));
    lemma_compose(
        t2, rt, pre0, emp(), top6(mi, mr, li, hr, di, rr), emp(), top6(mi, mr, li, di, rr, hr),
        emp(),
    );
    let t3 = t2 + rt;
    lemma_rot(di, rr, hr);
    lemma_frame(rt, top3(di, rr, hr), emp(), top3(rr, hr, di), emp(), top3(mi, mr, li), emp());
    assert(top3(mi, mr, li) + top3(di, rr, hr) =~= top6(mi, mr, li, di, rr, hr));
    assert(top3(mi, mr, li) + top3(rr, hr, di) =~= top6(mi, mr, li, rr, hr, di));
    lemma_compose(
        t3, rt, pre0, emp(), top6(mi, mr, li, di, rr, hr), emp(), top6(mi, mr, li, rr, hr, di),
        emp(),
    );
    let t4 = t3 + rt;
    lemma_frame(ga2, top2(hr, di), emp(), top1(w2), emp(), top4(mi, mr, li, rr), emp());
    assert(top4(mi, mr, li, rr) + top2(hr, di) =~= top6(mi, mr, li, rr, hr, di));
    assert(top4(mi, mr, li, rr) + top1(w2) =~= top5(mi, mr, li, rr, w2));
    lemma_compose(
        t4, ga2, pre0, emp(), top6(mi, mr, li, rr, hr, di), emp(), top5(mi, mr, li, rr, w2), emp(),
    );
    let t5 = t4 + ga2;
    lemma_rot(li, rr, w2);
    lemma_frame(rt, top3(li, rr, w2), emp(), top3(rr, w2, li), emp(), top2(mi, mr), emp());
    assert(top2(mi, mr) + top3(li, rr, w2) =~= top5(mi, mr, li, rr, w2));
    assert(top2(mi, mr) + top3(rr, w2, li) =~= top5(mi, mr, rr, w2, li));
    lemma_compose(
        t5, rt, pre0, emp(), top5(mi, mr, li, rr, w2), emp(), top5(mi, mr, rr, w2, li), emp(),
    );
    let t6 = t5 + rt;
    lemma_frame(ga3, top2(w2, li), emp(), top1(ri), emp(), top3(mi, mr, rr), emp());
    assert(top3(mi, mr, rr) + top2(w2, li) =~= top5(mi, mr, rr, w2, li));
    assert(top3(mi, mr, rr) + top1(ri) =~= top4(mi, mr, rr, ri));
    lemma_compose(
        t6, ga3, pre0, emp(), top5(mi, mr, rr, w2, li), emp(), top4(mi, mr, rr, ri), emp(),
    );
    let t7 = t6 + ga3;
    lemma_swap(rr, ri);
    lemma_frame(sw, top2(rr, ri), emp(), top2(ri, rr), emp(), top2(mi, mr), emp());
    assert(top2(mi, mr) + top2(rr, ri) =~= top4(mi, mr, rr, ri));
    assert(top2(mi, mr) + top2(ri, rr) =~= top4(mi, mr, ri, rr));
    lemma_compose(
        t7, sw, pre0, emp(), top4(mi, mr, rr, ri), emp(), top4(mi, mr, ri, rr), emp(),
    );
}

/// Full QM31 multiplication: three-way Karatsuba, then the lane remix
/// dictated by `j^2 = 2 + i`. With operands `x = x0 + x1*j` and
/// `y = y0 + y1*j` laid out as lanes `(a, b, c, d) = (x1_imag, x1_real,
/// x0_imag, x0_real)`, the result's high pair is the cross sum and its low
/// pair is `low + (2 + i) * high`.
#[verifier::rlimit(100)]
pub fn qm31_mul() -> (r: Fragment)
    ensures
        forall|a1: int, b1: int, c1: int, d1: int, a2: int, b2: int, c2: int, d2: int|
            is_m31(a1) && is_m31(b1) && is_m31(c1) && is_m31(d1) && is_m31(a2) && is_m31(b2)
                && is_m31(c2) && is_m31(d2) ==> #[trigger] runs_to(
                r@,
                top8(a1, b1, c1, d1, a2, b2, c2, d2),
                emp(),
                top4(
                    modp(a1 * d2 + b1 * c2 + a2 * d1 + b2 * c1),
                    modp(b1 * d2 + b2 * d1 - a1 * c2 - a2 * c1),
                    modp((c1 * d2 + c2 * d1) + 2 * (a1 * b2 + a2 * b1) + (b1 * b2 - a1 * a2)),
                    modp((d1 * d2 - c1 * c2) + 2 * (b1 * b2 - a1 * a2) - (a1 * b2 + a2 * b1)),
                ),
                emp(),
            ),
{
    let mut f = Fragment::new();
    let kb = karatsuba_big();
    let ghost kbv = kb@;
    f.splice(kb);
    let ghost s0 = f@;
    f.op(Op::Push(4));
    f.op(Op::Roll);
    f.op(Op::Dup);
    let gd1 = m31_double();
    let ghost gd1v = gd1@;
    f.splice(gd1);
    f.op(Op::Push(6));
    f.op(Op::Roll);
    f.op(Op::Dup);
    let gd2 = m31_double();
    let ghost gd2v = gd2@;
    f.splice(gd2);
    f.op(Op::Rot);
    f.op(Op::Rot);
    let gsb = m31_sub();
    let ghost gsbv = gsb@;
    f.splice(gsb);
    let ghost s9 = f@;
    f.op(Op::Push(3));
    f.op(Op::Roll);
    let ga1 = m31_add();
    let ghost ga1v = ga1@;
    f.splice(ga1);
    f.op(Op::Rot);
    f.op(Op::Rot);
    let ga2 = m31_add();
    let ghost ga2v = ga2@;
    f.splice(ga2);
    f.op(Op::Rot);
    let ga3 = m31_add();
    let ghost ga3v = ga3@;
    f.splice(ga3);
    f.op(Op::Swap);
    proof {
        let r4 = seq![Instr::Op(Op::Push(4)), Instr::Op(Op::Roll)];
        let r6 = seq![Instr::Op(Op::Push(6)), Instr::Op(Op::Roll)];
        let r3 = seq![Instr::Op(Op::Push(3)), Instr::Op(Op::Roll)];
        let du = seq![Instr::Op(Op::Dup)];
        let rt = seq![Instr::Op(Op::Rot)];
        let sw = seq![Instr::Op(Op::Swap)];
        assert(s0 =~= Seq::<Instr>::empty() + kbv);
        assert(s9 =~= ((((((((s0 + r4) + du) + gd1v) + r6) + du) + gd2v) + rt) + rt) + gsbv);
        assert(f@ =~= ((((((((s9 + r3) + ga1v) + rt) + rt) + ga2v) + rt) + ga3v) + sw));
        assert forall|a1: int, b1: int, c1: int, d1: int, a2: int, b2: int, c2: int, d2: int|
            is_m31(a1) && is_m31(b1) && is_m31(c1) && is_m31(d1) && is_m31(a2) && is_m31(b2)
                && is_m31(c2) && is_m31(d2) implies #[trigger] runs_to(
            f@,
            top8(a1, b1, c1, d1, a2, b2, c2, d2),
            emp(),
            top4(
                modp(a1 * d2 + b1 * c2 + a2 * d1 + b2 * c1),
                modp(b1 * d2 + b2 * d1 - a1 * c2 - a2 * c1),
                modp((c1 * d2 + c2 * d1) + 2 * (a1 * b2 + a2 * b1) + (b1 * b2 - a1 * a2)),
                modp((d1 * d2 - c1 * c2) + 2 * (b1 * b2 - a1 * a2) - (a1 * b2 + a2 * b1)),
            ),
            emp(),
        ) by {
            let pr = prime();
            let pre0 = top8(a1, b1, c1, d1, a2, b2, c2, d2);
            let hi_raw = a1 * b2 + a2 * b1;
            let hr_raw = b1 * b2 - a1 * a2;
            let li_raw = c1 * d2 + c2 * d1;
            let lr_raw = d1 * d2 - c1 * c2;
            let hi = modp(hi_raw);
            let hr = modp(hr_raw);
            let li = modp(li_raw);
            let lr = modp(lr_raw);
            let mi = modp(a1 * d2 + b1 * c2 + a2 * d1 + b2 * c1);
            let mr = modp(b1 * d2 + b2 * d1 - a1 * c2 - a2 * c1);
            let dr = modp(2 * hr);
            let di = modp(2 * hi);
            let w1 = modp(dr - hi);
            let rr = modp(w1 + lr);
            let w2 = modp(hr + di);
            let ri = modp(w2 + li);
            lemma_mod_bound(hi_raw, pr);
            lemma_mod_bound(hr_raw, pr);
            lemma_mod_bound(li_raw, pr);
            lemma_mod_bound(lr_raw, pr);
            lemma_mod_bound(2 * hr, pr);
            lemma_mod_bound(2 * hi, pr);
            lemma_mod_bound(dr - hi, pr);
            lemma_mod_bound(hr + di, pr);
            assert(runs_to(kbv, pre0, emp(), top6(
                modp(a1 * b2 + a2 * b1),
                modp(b1 * b2 - a1 * a2),
                modp(a1 * d2 + b1 * c2 + a2 * d1 + b2 * c1),
                modp(b1 * d2 + b2 * d1 - a1 * c2 - a2 * c1),
                modp(c1 * d2 + c2 * d1),
                modp(d1 * d2 - c1 * c2),
            ), emp()));
            lemma_nil(pre0, emp());
            lemma_frame(kbv, pre0, emp(), top6(hi, hr, mi, mr, li, lr), emp(), emp(), emp());
            assert(emp() + pre0 =~= pre0);
            assert(emp() + top6(hi, hr, mi, mr, li, lr) =~= top6(hi, hr, mi, mr, li, lr));
            assert(emp() + emp() =~= emp());
            lemma_compose(
                Seq::<Instr>::empty(), kbv, pre0, emp(), pre0, emp(),
                top6(hi, hr, mi, mr, li, lr), emp(),
            );
            assert(runs_to(s0, pre0, emp(), top6(hi, hr, mi, mr, li, lr), emp()));
            assert(runs_to(gd1v, top1(hr), emp(), top1(modp(2 * hr)), emp()));
            assert(runs_to(gd2v, top1(hi), emp(), top1(modp(2 * hi)), emp()));
            assert(runs_to(gsbv, top2(dr, hi), emp(), top1(modp(dr - hi)), emp()));
            lemma_remix_head(s0, gd1v, gd2v, gsbv, pre0, hi, hr, mi, mr, li, lr, di, dr, w1);
            assert(runs_to(s9, pre0, emp(), top5(mi, mr, li, lr, hr) + top2(di, w1), emp()));
            assert(runs_to(ga1v, top2(w1, lr), emp(), top1(modp(w1 + lr)), emp()));
            assert(runs_to(ga2v, top2(hr, di), emp(), top1(modp(hr + di)), emp()));
            assert(runs_to(ga3v, top2(w2, li), emp(), top1(modp(w2 + li)), emp()));
            lemma_remix_tail(s9, ga1v, ga2v, ga3v, pre0, mi, mr, li, lr, hr, di, w1, rr, w2, ri);
            assert(runs_to(f@, pre0, emp(), top4(mi, mr, ri, rr), emp()));
            // fold the reductions: rr and ri over the raw products
            lemma_small_mod(hi as nat, pr as nat);
            lemma_sub_mod_noop(2 * hr, hi, pr);
            assert(w1 == modp(2 * hr - hi));
            lemma_modp_fold(2 * hr - hi, lr);
            assert(rr == modp(2 * hr - hi + lr));
            lemma_add_mod_noop_right(lr - hi, 2 * hr, pr);
            lemma_mul_mod_noop_right(2, hr_raw, pr);
            lemma_add_mod_noop_right(lr - hi, 2 * hr_raw, pr);
            assert(rr == modp(lr - hi + 2 * hr_raw));
            lemma_sub_mod_noop_right(lr + 2 * hr_raw, hi_raw, pr);
            assert(rr == modp(lr + 2 * hr_raw - hi_raw));
            lemma_add_mod_noop_right(2 * hr_raw - hi_raw, lr_raw, pr);
            assert(rr == modp(lr_raw + 2 * hr_raw - hi_raw));
            lemma_add_mod_noop_right(hr, 2 * hi, pr);
            assert(w2 == modp(hr + 2 * hi));
            lemma_modp_fold(hr + 2 * hi, li);
            assert(ri == modp(hr + 2 * hi + li));
            lemma_add_mod_noop_right(hr + li, 2 * hi, pr);
            lemma_mul_mod_noop_right(2, hi_raw, pr);
            lemma_add_mod_noop_right(hr + li, 2 * hi_raw, pr);
            assert(ri == modp(hr + li + 2 * hi_raw));
            lemma_add_mod_noop_right(li + 2 * hi_raw, hr_raw, pr);
            assert(ri == modp(li + 2 * hi_raw + hr_raw));
            lemma_add_mod_noop_right(2 * hi_raw + hr_raw, li_raw, pr);
            assert(ri == modp(li_raw + 2 * hi_raw + hr_raw));
        }
    }
    f
}

} // verus!
