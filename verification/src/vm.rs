//! Model of the host stack machine: the opcodes the fragments use, their
//! semantics over two stacks of integers, and lemmas for composing the
//! behaviour of concatenated fragments.
//!
//! The machine is Bitcoin's Tapscript interpreter restricted to the integer
//! opcodes: every arithmetic opcode demands operands whose magnitude is at
//! most `2^31 - 1` (the range of a four-byte script number) and branch
//! conditions must be exactly 0 or 1.

use vstd::prelude::*;

verus! {

/// The Mersenne-31 prime, `2^31 - 1`.
pub const P: i64 = 0x7fff_ffff;

/// An opcode without control flow. `Push` carries the literal it pushes;
/// `Pick` and `Roll` take their depth from the top of the stack.
#[derive(Clone, Copy, PartialEq, Eq, Debug)]
pub enum Op {
    Push(i64),
    Add,
    Sub,
    Mul,
    Div,
    Dup,
    Dup2,
    Swap,
    Rot,
    Over,
    Pick,
    Roll,
    ToAlt,
    FromAlt,
    LessThan,
    GreaterEq,
    Equal,
    EqualVerify,
}

/// One instruction of a fragment: a plain opcode, or a conditional that pops
/// the condition and runs one of two straight-line branches.
#[derive(Clone, Debug)]
pub enum Instr {
    Op(Op),
    If(Vec<Op>, Vec<Op>),
}

/// An immutable sequence of instructions with a documented effect on the
/// operand and alt stacks.
#[derive(Clone, Debug)]
pub struct Fragment {
    pub ops: Vec<Instr>,
}

impl View for Fragment {
    type V = Seq<Instr>;

    open spec fn view(&self) -> Seq<Instr> {
        self.ops@
    }
}

impl Fragment {
    /// The empty fragment.
    pub fn new() -> (r: Fragment)
        ensures
            r@ == Seq::<Instr>::empty(),
    {
        let r = Fragment { ops: Vec::new() };
        proof {
            assert(r@ =~= Seq::<Instr>::empty());
        }
        r
    }

    /// Append a single opcode.
    pub fn op(&mut self, op: Op)
        ensures
            final(self)@ == old(self)@.push(Instr::Op(op)),
    {
        self.ops.push(Instr::Op(op));
    }

    /// Append a conditional with the given branches.
    pub fn op_if(&mut self, then_ops: Vec<Op>, else_ops: Vec<Op>)
        ensures
            final(self)@ == old(self)@.push(Instr::If(then_ops, else_ops)),
    {
        self.ops.push(Instr::If(then_ops, else_ops));
    }

    /// Append another fragment's instructions verbatim.
    pub fn splice(&mut self, other: Fragment)
        ensures
            final(self)@ == old(self)@ + other@,
    {
        let mut o = other;
        self.ops.append(&mut o.ops);
    }
}

/// The machine state: the operand stack and the alt stack, deepest first.
pub struct VmState {
    pub stack: Seq<int>,
    pub alt: Seq<int>,
}

/// Whether an arithmetic opcode accepts `x` as an operand: `x` must fit a
/// four-byte script number.
pub open spec fn num_ok(x: int) -> bool {
    -(P as int) <= x <= (P as int)
}

/// Effect of one plain opcode, `None` on failure (stack underflow, an
/// operand out of range, a failed `EqualVerify`).
pub open spec fn run_op(op: Op, s: VmState) -> Option<VmState> {
    let st = s.stack;
    let n = st.len() as int;
    match op {
        Op::Push(v) => Some(VmState { stack: st.push(v as int), alt: s.alt }),
        Op::Add => if n >= 2 && num_ok(st[n - 2]) && num_ok(st[n - 1]) {
            Some(VmState { stack: st.take(n - 2).push(st[n - 2] + st[n - 1]), alt: s.alt })
        } else {
            None
        },
        Op::Sub => if n >= 2 && num_ok(st[n - 2]) && num_ok(st[n - 1]) {
            Some(VmState { stack: st.take(n - 2).push(st[n - 2] - st[n - 1]), alt: s.alt })
        } else {
            None
        },
        Op::Mul => if n >= 2 && num_ok(st[n - 2]) && num_ok(st[n - 1]) {
            Some(VmState { stack: st.take(n - 2).push(st[n - 2] * st[n - 1]), alt: s.alt })
        } else {
            None
        },
        Op::Div => if n >= 2 && num_ok(st[n - 2]) && num_ok(st[n - 1]) && st[n - 2] >= 0 && st[n
            - 1] > 0 {
            Some(VmState { stack: st.take(n - 2).push(st[n - 2] / st[n - 1]), alt: s.alt })
        } else {
            None
        },
        Op::Dup => if n >= 1 {
            Some(VmState { stack: st.push(st[n - 1]), alt: s.alt })
        } else {
            None
        },
        Op::Dup2 => if n >= 2 {
            Some(VmState { stack: st.push(st[n - 2]).push(st[n - 1]), alt: s.alt })
        } else {
            None
        },
        Op::Swap => if n >= 2 {
            Some(VmState { stack: st.take(n - 2).push(st[n - 1]).push(st[n - 2]), alt: s.alt })
        } else {
            None
        },
        Op::Rot => if n >= 3 {
            Some(
                VmState {
                    stack: st.take(n - 3).push(st[n - 2]).push(st[n - 1]).push(st[n - 3]),
                    alt: s.alt,
                },
            )
        } else {
            None
        },
        Op::Over => if n >= 2 {
            Some(VmState { stack: st.push(st[n - 2]), alt: s.alt })
        } else {
            None
        },
        Op::Pick => if n >= 1 && 0 <= st[n - 1] < n - 1 {
            let d = st[n - 1];
            Some(VmState { stack: st.take(n - 1).push(st[n - 2 - d]), alt: s.alt })
        } else {
            None
        },
        Op::Roll => if n >= 1 && 0 <= st[n - 1] < n - 1 {
            let d = st[n - 1];
            Some(
                VmState {
                    stack: (st.take(n - 2 - d) + st.subrange(n - 1 - d, n - 1)).push(
                        st[n - 2 - d],
                    ),
                    alt: s.alt,
                },
            )
        } else {
            None
        },
        Op::ToAlt => if n >= 1 {
            Some(VmState { stack: st.take(n - 1), alt: s.alt.push(st[n - 1]) })
        } else {
            None
        },
        Op::FromAlt => if s.alt.len() >= 1 {
            Some(
                VmState {
                    stack: st.push(s.alt.last()),
                    alt: s.alt.take(s.alt.len() as int - 1),
                },
            )
        } else {
            None
        },
        Op::LessThan => if n >= 2 && num_ok(st[n - 2]) && num_ok(st[n - 1]) {
            Some(
                VmState {
                    stack: st.take(n - 2).push(
                        if st[n - 2] < st[n - 1] {
                            1int
                        } else {
                            0int
                        },
                    ),
                    alt: s.alt,
                },
            )
        } else {
            None
        },
        Op::GreaterEq => if n >= 2 && num_ok(st[n - 2]) && num_ok(st[n - 1]) {
            Some(
                VmState {
                    stack: st.take(n - 2).push(
                        if st[n - 2] >= st[n - 1] {
                            1int
                        } else {
                            0int
                        },
                    ),
                    alt: s.alt,
                },
            )
        } else {
            None
        },
        Op::Equal => if n >= 2 {
            Some(
                VmState {
                    stack: st.take(n - 2).push(
                        if st[n - 2] == st[n - 1] {
                            1int
                        } else {
                            0int
                        },
                    ),
                    alt: s.alt,
                },
            )
        } else {
            None
        },
        Op::EqualVerify => if n >= 2 && st[n - 2] == st[n - 1] {
            Some(VmState { stack: st.take(n - 2), alt: s.alt })
        } else {
            None
        },
    }
}

/// Effect of a straight-line branch body.
pub open spec fn run_ops(ops: Seq<Op>, s: VmState) -> Option<VmState>
    decreases ops.len(),
{
    if ops.len() == 0 {
        Some(s)
    } else {
        match run_op(ops[0], s) {
            Some(m) => run_ops(ops.drop_first(), m),
            None => None,
        }
    }
}

/// Effect of one instruction. A conditional pops its condition, which must
/// be exactly 0 or 1 (the machine demands a minimal boolean), and runs the
/// corresponding branch.
pub open spec fn run_instr(i: Instr, s: VmState) -> Option<VmState> {
    match i {
        Instr::Op(op) => run_op(op, s),
        Instr::If(then_ops, else_ops) => {
            let st = s.stack;
            let n = st.len() as int;
            if n >= 1 && (st[n - 1] == 0 || st[n - 1] == 1) {
                let rest = VmState { stack: st.take(n - 1), alt: s.alt };
                if st[n - 1] == 1 {
                    run_ops(then_ops@, rest)
                } else {
                    run_ops(else_ops@, rest)
                }
            } else {
                None
            }
        },
    }
}

/// Effect of a whole fragment.
pub open spec fn run(ops: Seq<Instr>, s: VmState) -> Option<VmState>
    decreases ops.len(),
{
    if ops.len() == 0 {
        Some(s)
    } else {
        match run_instr(ops[0], s) {
            Some(m) => run(ops.drop_first(), m),
            None => None,
        }
    }
}

/// The central contract form: on any state whose operand stack ends in
/// `pre` and whose alt stack ends in `pa`, the fragment succeeds, replaces
/// `pre` by `post` and `pa` by `qa`, and touches nothing deeper.
pub open spec fn runs_to(
    ops: Seq<Instr>,
    pre: Seq<int>,
    pa: Seq<int>,
    post: Seq<int>,
    qa: Seq<int>,
) -> bool {
    forall|stk: Seq<int>, alt: Seq<int>|
        #[trigger] run(ops, VmState { stack: stk + pre, alt: alt + pa }) == Some(
            VmState { stack: stk + post, alt: alt + qa },
        )
}

/// On any state whose stacks end in `pre` and `pa` the fragment fails.
pub open spec fn fails_on(ops: Seq<Instr>, pre: Seq<int>, pa: Seq<int>) -> bool {
    forall|stk: Seq<int>, alt: Seq<int>|
        #[trigger] run(ops, VmState { stack: stk + pre, alt: alt + pa }) == None::<VmState>
}

/// Splitting a run at any point: the concatenation runs the head, then the
/// tail from the head's result.
pub proof fn lemma_run_app(a: Seq<Instr>, b: Seq<Instr>, s: VmState)
    ensures
        run(a + b, s) == (match run(a, s) {
            Some(m) => run(b, m),
            None => None::<VmState>,
        }),
    decreases a.len(),
{
    if a.len() == 0 {
        assert(a + b =~= b);
    } else {
        assert((a + b)[0] == a[0]);
        assert((a + b).drop_first() =~= a.drop_first() + b);
        match run_instr(a[0], s) {
            Some(m) => {
                lemma_run_app(a.drop_first(), b, m);
            },
            None => {},
        }
    }
}

/// Sequential composition of two fragment contracts.
pub proof fn lemma_compose(
    a: Seq<Instr>,
    b: Seq<Instr>,
    pre: Seq<int>,
    pa: Seq<int>,
    mid: Seq<int>,
    ma: Seq<int>,
    post: Seq<int>,
    qa: Seq<int>,
)
    requires
        runs_to(a, pre, pa, mid, ma),
        runs_to(b, mid, ma, post, qa),
    ensures
        runs_to(a + b, pre, pa, post, qa),
{
    assert forall|stk: Seq<int>, alt: Seq<int>|
        #[trigger] run(a + b, VmState { stack: stk + pre, alt: alt + pa }) == Some(
            VmState { stack: stk + post, alt: alt + qa },
        ) by {
        lemma_run_app(a, b, VmState { stack: stk + pre, alt: alt + pa });
        assert(run(a, VmState { stack: stk + pre, alt: alt + pa }) == Some(
            VmState { stack: stk + mid, alt: alt + ma },
        ));
        assert(run(b, VmState { stack: stk + mid, alt: alt + ma }) == Some(
            VmState { stack: stk + post, alt: alt + qa },
        ));
    }
}

/// Composition when the second fragment fails.
pub proof fn lemma_compose_fails(
    a: Seq<Instr>,
    b: Seq<Instr>,
    pre: Seq<int>,
    pa: Seq<int>,
    mid: Seq<int>,
    ma: Seq<int>,
)
    requires
        runs_to(a, pre, pa, mid, ma),
        fails_on(b, mid, ma),
    ensures
        fails_on(a + b, pre, pa),
{
    assert forall|stk: Seq<int>, alt: Seq<int>|
        #[trigger] run(a + b, VmState { stack: stk + pre, alt: alt + pa }) == None::<VmState> by {
        lemma_run_app(a, b, VmState { stack: stk + pre, alt: alt + pa });
        assert(run(a, VmState { stack: stk + pre, alt: alt + pa }) == Some(
            VmState { stack: stk + mid, alt: alt + ma },
        ));
        assert(run(b, VmState { stack: stk + mid, alt: alt + ma }) == None::<VmState>);
    }
}

/// Framing: a fragment's contract still holds with more data below the part
/// it reads.
pub proof fn lemma_frame(
    ops: Seq<Instr>,
    pre: Seq<int>,
    pa: Seq<int>,
    post: Seq<int>,
    qa: Seq<int>,
    w: Seq<int>,
    wa: Seq<int>,
)
    requires
        runs_to(ops, pre, pa, post, qa),
    ensures
        runs_to(ops, w + pre, wa + pa, w + post, wa + qa),
{
    let gpre = (w + pre);
    let gpa = (wa + pa);
    let gpost = (w + post);
    let gqa = (wa + qa);
    assert forall|stk: Seq<int>, alt: Seq<int>|
        #[trigger] run(ops, VmState { stack: stk + gpre, alt: alt + gpa }) == Some(
            VmState { stack: stk + gpost, alt: alt + gqa },
        ) by {
        assert(stk + (w + pre) =~= (stk + w) + pre);
        assert(alt + (wa + pa) =~= (alt + wa) + pa);
        assert(run(ops, VmState { stack: (stk + w) + pre, alt: (alt + wa) + pa }) == Some(
            VmState { stack: (stk + w) + post, alt: (alt + wa) + qa },
        ));
        assert(stk + (w + post) =~= (stk + w) + post);
        assert(alt + (wa + qa) =~= (alt + wa) + qa);
    }
}

/// The empty stack delta.
pub open spec fn emp() -> Seq<int> {
    Seq::<int>::empty()
}

/// The top of a stack, as a one-element delta.
pub open spec fn top1(a: int) -> Seq<int> {
    seq![a]
}

/// The top two items of a stack, deepest first.
pub open spec fn top2(a: int, b: int) -> Seq<int> {
    seq![a, b]
}

/// The top three items of a stack, deepest first.
pub open spec fn top3(a: int, b: int, c: int) -> Seq<int> {
    seq![a, b, c]
}

/// The top four items of a stack, deepest first.
pub open spec fn top4(a: int, b: int, c: int, d: int) -> Seq<int> {
    seq![a, b, c, d]
}

/// The top five items of a stack, deepest first.
pub open spec fn top5(a: int, b: int, c: int, d: int, e: int) -> Seq<int> {
    seq![a, b, c, d, e]
}

/// The top six items of a stack, deepest first.
pub open spec fn top6(a: int, b: int, c: int, d: int, e: int, f: int) -> Seq<int> {
    seq![a, b, c, d, e, f]
}

/// The top eight items of a stack, deepest first.
pub open spec fn top8(
    a: int,
    b: int,
    c: int,
    d: int,
    e: int,
    f: int,
    g: int,
    h: int,
) -> Seq<int> {
    seq![a, b, c, d, e, f, g, h]
}

/// The empty fragment leaves any state unchanged.
pub proof fn lemma_nil(pre: Seq<int>, pa: Seq<int>)
    ensures
        runs_to(Seq::<Instr>::empty(), pre, pa, pre, pa),
{
    assert forall|stk: Seq<int>, alt: Seq<int>|
        #[trigger] run(Seq::<Instr>::empty(), VmState { stack: stk + pre, alt: alt + pa }) == Some(
            VmState { stack: stk + pre, alt: alt + pa },
        ) by {
        reveal_with_fuel(run, 1);
    }
}

/// Contract of a single `Push`.
pub proof fn lemma_push(v: i64)
    ensures
        runs_to(seq![Instr::Op(Op::Push(v))], emp(), emp(), seq![v as int], emp()),
{
    let ops = seq![Instr::Op(Op::Push(v))];
    let gpre = emp();
    let gpa = emp();
    let gpost = seq![v as int];
    let gqa = emp();
    assert forall|stk: Seq<int>, alt: Seq<int>|
        #[trigger] run(ops, VmState { stack: stk + gpre, alt: alt + gpa }) == Some(
            VmState { stack: stk + gpost, alt: alt + gqa },
        ) by {
        reveal_with_fuel(run, 2);
        assert(ops.drop_first() =~= Seq::<Instr>::empty());
        assert((stk + emp()).push(v as int) =~= stk + seq![v as int]);
    }
}

/// Contract of a single `Dup`.
pub proof fn lemma_dup(a: int)
    ensures
        runs_to(seq![Instr::Op(Op::Dup)], seq![a], emp(), seq![a, a], emp()),
{
    let ops = seq![Instr::Op(Op::Dup)];
    let gpre = seq![a];
    let gpa = emp();
    let gpost = seq![a, a];
    let gqa = emp();
    assert forall|stk: Seq<int>, alt: Seq<int>|
        #[trigger] run(ops, VmState { stack: stk + gpre, alt: alt + gpa }) == Some(
            VmState { stack: stk + gpost, alt: alt + gqa },
        ) by {
        reveal_with_fuel(run, 2);
        assert(ops.drop_first() =~= Seq::<Instr>::empty());
        assert((stk + seq![a]).push(a) =~= stk + seq![a, a]);
    }
}

/// Contract of a single `Dup2`.
pub proof fn lemma_dup2(a: int, b: int)
    ensures
        runs_to(seq![Instr::Op(Op::Dup2)], seq![a, b], emp(), seq![a, b, a, b], emp()),
{
    let ops = seq![Instr::Op(Op::Dup2)];
    let gpre = seq![a, b];
    let gpa = emp();
    let gpost = seq![a, b, a, b];
    let gqa = emp();
    assert forall|stk: Seq<int>, alt: Seq<int>|
        #[trigger] run(ops, VmState { stack: stk + gpre, alt: alt + gpa }) == Some(
            VmState { stack: stk + gpost, alt: alt + gqa },
        ) by {
        reveal_with_fuel(run, 2);
        assert(ops.drop_first() =~= Seq::<Instr>::empty());
        assert((stk + seq![a, b]).push(a).push(b) =~= stk + seq![a, b, a, b]);
    }
}

/// Contract of a single `Swap`.
pub proof fn lemma_swap(a: int, b: int)
    ensures
        runs_to(seq![Instr::Op(Op::Swap)], seq![a, b], emp(), seq![b, a], emp()),
{
    let ops = seq![Instr::Op(Op::Swap)];
    let gpre = seq![a, b];
    let gpa = emp();
    let gpost = seq![b, a];
    let gqa = emp();
    assert forall|stk: Seq<int>, alt: Seq<int>|
        #[trigger] run(ops, VmState { stack: stk + gpre, alt: alt + gpa }) == Some(
            VmState { stack: stk + gpost, alt: alt + gqa },
        ) by {
        reveal_with_fuel(run, 2);
        assert(ops.drop_first() =~= Seq::<Instr>::empty());
        let st = stk + seq![a, b];
        let n = st.len() as int;
        assert(st.take(n - 2) =~= stk);
        assert(st.take(n - 2).push(b).push(a) =~= stk + seq![b, a]);
    }
}

/// Contract of a single `Rot`.
pub proof fn lemma_rot(a: int, b: int, c: int)
    ensures
        runs_to(seq![Instr::Op(Op::Rot)], seq![a, b, c], emp(), seq![b, c, a], emp()),
{
    let ops = seq![Instr::Op(Op::Rot)];
    let gpre = seq![a, b, c];
    let gpa = emp();
    let gpost = seq![b, c, a];
    let gqa = emp();
    assert forall|stk: Seq<int>, alt: Seq<int>|
        #[trigger] run(ops, VmState { stack: stk + gpre, alt: alt + gpa }) == Some(
            VmState { stack: stk + gpost, alt: alt + gqa },
        ) by {
        reveal_with_fuel(run, 2);
        assert(ops.drop_first() =~= Seq::<Instr>::empty());
        let st = stk + seq![a, b, c];
        let n = st.len() as int;
        assert(st.take(n - 3) =~= stk);
        assert(st.take(n - 3).push(b).push(c).push(a) =~= stk + seq![b, c, a]);
    }
}

/// Contract of a single `Over`.
pub proof fn lemma_over(a: int, b: int)
    ensures
        runs_to(seq![Instr::Op(Op::Over)], seq![a, b], emp(), seq![a, b, a], emp()),
{
    let ops = seq![Instr::Op(Op::Over)];
    let gpre = seq![a, b];
    let gpa = emp();
    let gpost = seq![a, b, a];
    let gqa = emp();
    assert forall|stk: Seq<int>, alt: Seq<int>|
        #[trigger] run(ops, VmState { stack: stk + gpre, alt: alt + gpa }) == Some(
            VmState { stack: stk + gpost, alt: alt + gqa },
        ) by {
        reveal_with_fuel(run, 2);
        assert(ops.drop_first() =~= Seq::<Instr>::empty());
        assert((stk + seq![a, b]).push(a) =~= stk + seq![a, b, a]);
    }
}

/// Contract of a single `Add`.
pub proof fn lemma_add(a: int, b: int)
    requires
        num_ok(a),
        num_ok(b),
    ensures
        runs_to(seq![Instr::Op(Op::Add)], seq![a, b], emp(), seq![a + b], emp()),
{
    let ops = seq![Instr::Op(Op::Add)];
    let gpre = seq![a, b];
    let gpa = emp();
    let gpost = seq![a + b];
    let gqa = emp();
    assert forall|stk: Seq<int>, alt: Seq<int>|
        #[trigger] run(ops, VmState { stack: stk + gpre, alt: alt + gpa }) == Some(
            VmState { stack: stk + gpost, alt: alt + gqa },
        ) by {
        reveal_with_fuel(run, 2);
        assert(ops.drop_first() =~= Seq::<Instr>::empty());
        let st = stk + seq![a, b];
        let n = st.len() as int;
        assert(st.take(n - 2) =~= stk);
        assert(st.take(n - 2).push(a + b) =~= stk + seq![a + b]);
    }
}

/// Contract of a single `Sub`.
pub proof fn lemma_sub(a: int, b: int)
    requires
        num_ok(a),
        num_ok(b),
    ensures
        runs_to(seq![Instr::Op(Op::Sub)], seq![a, b], emp(), seq![a - b], emp()),
{
    let ops = seq![Instr::Op(Op::Sub)];
    let gpre = seq![a, b];
    let gpa = emp();
    let gpost = seq![a - b];
    let gqa = emp();
    assert forall|stk: Seq<int>, alt: Seq<int>|
        #[trigger] run(ops, VmState { stack: stk + gpre, alt: alt + gpa }) == Some(
            VmState { stack: stk + gpost, alt: alt + gqa },
        ) by {
        reveal_with_fuel(run, 2);
        assert(ops.drop_first() =~= Seq::<Instr>::empty());
        let st = stk + seq![a, b];
        let n = st.len() as int;
        assert(st.take(n - 2) =~= stk);
        assert(st.take(n - 2).push(a - b) =~= stk + seq![a - b]);
    }
}

/// Contract of a single `Mul`.
pub proof fn lemma_mul(a: int, b: int)
    requires
        num_ok(a),
        num_ok(b),
    ensures
        runs_to(seq![Instr::Op(Op::Mul)], seq![a, b], emp(), seq![a * b], emp()),
{
    let ops = seq![Instr::Op(Op::Mul)];
    let gpre = seq![a, b];
    let gpa = emp();
    let gpost = seq![a * b];
    let gqa = emp();
    assert forall|stk: Seq<int>, alt: Seq<int>|
        #[trigger] run(ops, VmState { stack: stk + gpre, alt: alt + gpa }) == Some(
            VmState { stack: stk + gpost, alt: alt + gqa },
        ) by {
        reveal_with_fuel(run, 2);
        assert(ops.drop_first() =~= Seq::<Instr>::empty());
        let st = stk + seq![a, b];
        let n = st.len() as int;
        assert(st.take(n - 2) =~= stk);
        assert(st.take(n - 2).push(a * b) =~= stk + seq![a * b]);
    }
}

/// Contract of a single `Div` on a nonnegative dividend and positive
/// divisor, the only way the fragments use it.
pub proof fn lemma_div(a: int, b: int)
    requires
        num_ok(a),
        num_ok(b),
        a >= 0,
        b > 0,
    ensures
        runs_to(seq![Instr::Op(Op::Div)], seq![a, b], emp(), seq![a / b], emp()),
{
    let ops = seq![Instr::Op(Op::Div)];
    let gpre = seq![a, b];
    let gpa = emp();
    let gpost = seq![a / b];
    let gqa = emp();
    assert forall|stk: Seq<int>, alt: Seq<int>|
        #[trigger] run(ops, VmState { stack: stk + gpre, alt: alt + gpa }) == Some(
            VmState { stack: stk + gpost, alt: alt + gqa },
        ) by {
        reveal_with_fuel(run, 2);
        assert(ops.drop_first() =~= Seq::<Instr>::empty());
        let st = stk + seq![a, b];
        let n = st.len() as int;
        assert(st.take(n - 2) =~= stk);
        assert(st.take(n - 2).push(a / b) =~= stk + seq![a / b]);
    }
}

/// Contract of a single `LessThan`.
pub proof fn lemma_lessthan(a: int, b: int)
    requires
        num_ok(a),
        num_ok(b),
    ensures
        runs_to(
            seq![Instr::Op(Op::LessThan)],
            seq![a, b],
            emp(),
            seq![
                if a < b {
                    1int
                } else {
                    0int
                },
            ],
            emp(),
        ),
{
    let ops = seq![Instr::Op(Op::LessThan)];
    let r: int = if a < b {
        1int
    } else {
        0int
    };
    let gpre = seq![a, b];
    let gpa = emp();
    let gpost = seq![r];
    let gqa = emp();
    assert forall|stk: Seq<int>, alt: Seq<int>|
        #[trigger] run(ops, VmState { stack: stk + gpre, alt: alt + gpa }) == Some(
            VmState { stack: stk + gpost, alt: alt + gqa },
        ) by {
        reveal_with_fuel(run, 2);
        assert(ops.drop_first() =~= Seq::<Instr>::empty());
        let st = stk + seq![a, b];
        let n = st.len() as int;
        assert(st.take(n - 2) =~= stk);
        assert(st.take(n - 2).push(r) =~= stk + seq![r]);
    }
}

/// Contract of a single `GreaterEq`.
pub proof fn lemma_greatereq(a: int, b: int)
    requires
        num_ok(a),
        num_ok(b),
    ensures
        runs_to(
            seq![Instr::Op(Op::GreaterEq)],
            seq![a, b],
            emp(),
            seq![
                if a >= b {
                    1int
                } else {
                    0int
                },
            ],
            emp(),
        ),
{
    let ops = seq![Instr::Op(Op::GreaterEq)];
    let r: int = if a >= b {
        1int
    } else {
        0int
    };
    let gpre = seq![a, b];
    let gpa = emp();
    let gpost = seq![r];
    let gqa = emp();
    assert forall|stk: Seq<int>, alt: Seq<int>|
        #[trigger] run(ops, VmState { stack: stk + gpre, alt: alt + gpa }) == Some(
            VmState { stack: stk + gpost, alt: alt + gqa },
        ) by {
        reveal_with_fuel(run, 2);
        assert(ops.drop_first() =~= Seq::<Instr>::empty());
        let st = stk + seq![a, b];
        let n = st.len() as int;
        assert(st.take(n - 2) =~= stk);
        assert(st.take(n - 2).push(r) =~= stk + seq![r]);
    }
}

/// Contract of a single `ToAlt`.
pub proof fn lemma_toalt(a: int)
    ensures
        runs_to(seq![Instr::Op(Op::ToAlt)], seq![a], emp(), emp(), seq![a]),
{
    let ops = seq![Instr::Op(Op::ToAlt)];
    let gpre = seq![a];
    let gpa = emp();
    let gpost = emp();
    let gqa = seq![a];
    assert forall|stk: Seq<int>, alt: Seq<int>|
        #[trigger] run(ops, VmState { stack: stk + gpre, alt: alt + gpa }) == Some(
            VmState { stack: stk + gpost, alt: alt + gqa },
        ) by {
        reveal_with_fuel(run, 2);
        assert(ops.drop_first() =~= Seq::<Instr>::empty());
        let st = stk + seq![a];
        let n = st.len() as int;
        assert(st.take(n - 1) =~= stk + emp());
        assert((alt + emp()).push(a) =~= alt + seq![a]);
    }
}

/// Contract of a single `FromAlt`.
pub proof fn lemma_fromalt(a: int)
    ensures
        runs_to(seq![Instr::Op(Op::FromAlt)], emp(), seq![a], seq![a], emp()),
{
    let ops = seq![Instr::Op(Op::FromAlt)];
    let gpre = emp();
    let gpa = seq![a];
    let gpost = seq![a];
    let gqa = emp();
    assert forall|stk: Seq<int>, alt: Seq<int>|
        #[trigger] run(ops, VmState { stack: stk + gpre, alt: alt + gpa }) == Some(
            VmState { stack: stk + gpost, alt: alt + gqa },
        ) by {
        reveal_with_fuel(run, 2);
        assert(ops.drop_first() =~= Seq::<Instr>::empty());
        let aa = alt + seq![a];
        assert(aa.last() == a);
        assert(aa.take(aa.len() as int - 1) =~= alt + emp());
        assert((stk + emp()).push(a) =~= stk + seq![a]);
    }
}

/// Contract of a single `EqualVerify` on equal items.
pub proof fn lemma_equalverify(a: int)
    ensures
        runs_to(seq![Instr::Op(Op::EqualVerify)], seq![a, a], emp(), emp(), emp()),
{
    let ops = seq![Instr::Op(Op::EqualVerify)];
    let gpre = seq![a, a];
    let gpa = emp();
    let gpost = emp();
    let gqa = emp();
    assert forall|stk: Seq<int>, alt: Seq<int>|
        #[trigger] run(ops, VmState { stack: stk + gpre, alt: alt + gpa }) == Some(
            VmState { stack: stk + gpost, alt: alt + gqa },
        ) by {
        reveal_with_fuel(run, 2);
        assert(ops.drop_first() =~= Seq::<Instr>::empty());
        let st = stk + seq![a, a];
        let n = st.len() as int;
        assert(st.take(n - 2) =~= stk + emp());
    }
}

/// A single `EqualVerify` on unequal items fails the whole run.
pub proof fn lemma_equalverify_fails(a: int, b: int)
    requires
        a != b,
    ensures
        fails_on(seq![Instr::Op(Op::EqualVerify)], seq![a, b], emp()),
{
    let ops = seq![Instr::Op(Op::EqualVerify)];
    let gpre = seq![a, b];
    let gpa = emp();
    assert forall|stk: Seq<int>, alt: Seq<int>|
        #[trigger] run(ops, VmState { stack: stk + gpre, alt: alt + gpa }) == None::<
            VmState,
        > by {
        reveal_with_fuel(run, 2);
        let st = stk + seq![a, b];
        let n = st.len() as int;
        assert(st[n - 2] == a && st[n - 1] == b);
    }
}

/// Contract of `Push(d)` followed by `Pick`: copy the item `d` deep to the
/// top. `xs` is the covered top of the stack.
pub proof fn lemma_pick(xs: Seq<int>, d: i64)
    requires
        0 <= d,
        (d as int) < xs.len(),
    ensures
        runs_to(
            seq![Instr::Op(Op::Push(d)), Instr::Op(Op::Pick)],
            xs,
            emp(),
            xs.push(xs[xs.len() - 1 - d as int]),
            emp(),
        ),
{
    let ops = seq![Instr::Op(Op::Push(d)), Instr::Op(Op::Pick)];
    let x = xs[xs.len() - 1 - d as int];
    let gpre = xs;
    let gpa = emp();
    let gpost = xs.push(x);
    let gqa = emp();
    assert forall|stk: Seq<int>, alt: Seq<int>|
        #[trigger] run(ops, VmState { stack: stk + gpre, alt: alt + gpa }) == Some(
            VmState { stack: stk + gpost, alt: alt + gqa },
        ) by {
        reveal_with_fuel(run, 3);
        assert(ops.drop_first() =~= seq![Instr::Op(Op::Pick)]);
        assert(ops.drop_first().drop_first() =~= Seq::<Instr>::empty());
        let st = (stk + xs).push(d as int);
        let n = st.len() as int;
        assert(st[n - 1] == d as int);
        assert(st.take(n - 1) =~= stk + xs);
        assert(st[n - 2 - d] == x);
        assert(st.take(n - 1).push(x) =~= stk + xs.push(x));
    }
}

/// Contract of `Push(d)` followed by `Roll`: move the item `d` deep to the
/// top. `xs` is the covered top of the stack.
pub proof fn lemma_roll(xs: Seq<int>, d: i64)
    requires
        0 <= d,
        (d as int) < xs.len(),
    ensures
        runs_to(
            seq![Instr::Op(Op::Push(d)), Instr::Op(Op::Roll)],
            xs,
            emp(),
            (xs.take(xs.len() - 1 - d as int) + xs.subrange(xs.len() - d as int, xs.len() as int))
                .push(xs[xs.len() - 1 - d as int]),
            emp(),
        ),
{
    let ops = seq![Instr::Op(Op::Push(d)), Instr::Op(Op::Roll)];
    let xl = xs.len() as int;
    let x = xs[xl - 1 - d as int];
    let post = (xs.take(xl - 1 - d as int) + xs.subrange(xl - d as int, xl)).push(x);
    let gpre = xs;
    let gpa = emp();
    let gpost = post;
    let gqa = emp();
    assert forall|stk: Seq<int>, alt: Seq<int>|
        #[trigger] run(ops, VmState { stack: stk + gpre, alt: alt + gpa }) == Some(
            VmState { stack: stk + gpost, alt: alt + gqa },
        ) by {
        reveal_with_fuel(run, 3);
        assert(ops.drop_first() =~= seq![Instr::Op(Op::Roll)]);
        assert(ops.drop_first().drop_first() =~= Seq::<Instr>::empty());
        let st = (stk + xs).push(d as int);
        let n = st.len() as int;
        assert(st[n - 1] == d as int);
        assert(st[n - 2 - d] == x);
        assert(st.take(n - 2 - d) =~= stk + xs.take(xl - 1 - d as int));
        assert(st.subrange(n - 1 - d, n - 1) =~= xs.subrange(xl - d as int, xl));
        assert((st.take(n - 2 - d) + st.subrange(n - 1 - d, n - 1)).push(x) =~= stk + post);
    }
}

/// Contract of a conditional whose taken branch adds the constant `k`:
/// `If([Push k, Add], [])`. The condition `c` is consumed.
pub proof fn lemma_if_add_const(i: Instr, k: i64, x: int, c: int)
    requires
        (i matches Instr::If(t, e) && t@ == seq![Op::Push(k), Op::Add] && e@ == Seq::<Op>::empty()),
        c == 0 || c == 1,
        num_ok(x),
        num_ok(k as int),
    ensures
        runs_to(
            seq![i],
            seq![x, c],
            emp(),
            seq![
                if c == 1 {
                    x + k
                } else {
                    x
                },
            ],
            emp(),
        ),
{
    let r: int = if c == 1 {
        x + k
    } else {
        x
    };
    let ops = seq![i];
    let gpre = seq![x, c];
    let gpa = emp();
    let gpost = seq![r];
    let gqa = emp();
    assert forall|stk: Seq<int>, alt: Seq<int>|
        #[trigger] run(ops, VmState { stack: stk + gpre, alt: alt + gpa }) == Some(
            VmState { stack: stk + gpost, alt: alt + gqa },
        ) by {
        reveal_with_fuel(run, 2);
        reveal_with_fuel(run_ops, 4);
        assert(ops.drop_first() =~= Seq::<Instr>::empty());
        let st = stk + seq![x, c];
        let n = st.len() as int;
        assert(st[n - 1] == c);
        assert(st.take(n - 1) =~= stk + seq![x]);
        let rest = VmState { stack: st.take(n - 1), alt: alt + emp() };
        if let Instr::If(t, e) = i {
            if c == 1 {
                let s1 = VmState { stack: rest.stack.push(k as int), alt: rest.alt };
                assert(t@.drop_first() =~= seq![Op::Add]);
                assert(t@.drop_first().drop_first() =~= Seq::<Op>::empty());
                let m = s1.stack.len() as int;
                assert(s1.stack[m - 2] == x && s1.stack[m - 1] == k as int);
                assert(s1.stack.take(m - 2).push(x + k) =~= stk + seq![r]);
            } else {
                assert(rest.stack =~= stk + seq![r]);
            }
        }
    }
}

/// Contract of a conditional whose taken branch subtracts the constant `k`:
/// `If([Push k, Sub], [])`. The condition `c` is consumed.
pub proof fn lemma_if_sub_const(i: Instr, k: i64, x: int, c: int)
    requires
        (i matches Instr::If(t, e) && t@ == seq![Op::Push(k), Op::Sub] && e@ == Seq::<Op>::empty()),
        c == 0 || c == 1,
        num_ok(x),
        num_ok(k as int),
    ensures
        runs_to(
            seq![i],
            seq![x, c],
            emp(),
            seq![
                if c == 1 {
                    x - k
                } else {
                    x
                },
            ],
            emp(),
        ),
{
    let r: int = if c == 1 {
        x - k
    } else {
        x
    };
    let ops = seq![i];
    let gpre = seq![x, c];
    let gpa = emp();
    let gpost = seq![r];
    let gqa = emp();
    assert forall|stk: Seq<int>, alt: Seq<int>|
        #[trigger] run(ops, VmState { stack: stk + gpre, alt: alt + gpa }) == Some(
            VmState { stack: stk + gpost, alt: alt + gqa },
        ) by {
        reveal_with_fuel(run, 2);
        reveal_with_fuel(run_ops, 4);
        assert(ops.drop_first() =~= Seq::<Instr>::empty());
        let st = stk + seq![x, c];
        let n = st.len() as int;
        assert(st[n - 1] == c);
        assert(st.take(n - 1) =~= stk + seq![x]);
        let rest = VmState { stack: st.take(n - 1), alt: alt + emp() };
        if let Instr::If(t, e) = i {
            if c == 1 {
                let s1 = VmState { stack: rest.stack.push(k as int), alt: rest.alt };
                assert(t@.drop_first() =~= seq![Op::Sub]);
                assert(t@.drop_first().drop_first() =~= Seq::<Op>::empty());
                let m = s1.stack.len() as int;
                assert(s1.stack[m - 2] == x && s1.stack[m - 1] == k as int);
                assert(s1.stack.take(m - 2).push(x - k) =~= stk + seq![r]);
            } else {
                assert(rest.stack =~= stk + seq![r]);
            }
        }
    }
}

/// Contract of the conditional `If([Over], [Push 0])` under two items: with
/// the condition `c` consumed, it pushes the second item if `c` is 1 and
/// pushes 0 otherwise.
pub proof fn lemma_if_over_zero(i: Instr, a: int, b: int, c: int)
    requires
        (i matches Instr::If(t, e) && t@ == seq![Op::Over] && e@ == seq![Op::Push(0)]),
        c == 0 || c == 1,
    ensures
        runs_to(
            seq![i],
            seq![a, b, c],
            emp(),
            seq![
                a,
                b,
                if c == 1 {
                    a
                } else {
                    0int
                },
            ],
            emp(),
        ),
{
    let r: int = if c == 1 {
        a
    } else {
        0int
    };
    let ops = seq![i];
    let gpre = seq![a, b, c];
    let gpa = emp();
    let gpost = seq![a, b, r];
    let gqa = emp();
    assert forall|stk: Seq<int>, alt: Seq<int>|
        #[trigger] run(ops, VmState { stack: stk + gpre, alt: alt + gpa }) == Some(
            VmState { stack: stk + gpost, alt: alt + gqa },
        ) by {
        reveal_with_fuel(run, 2);
        reveal_with_fuel(run_ops, 3);
        assert(ops.drop_first() =~= Seq::<Instr>::empty());
        let st = stk + seq![a, b, c];
        let n = st.len() as int;
        assert(st[n - 1] == c);
        assert(st.take(n - 1) =~= stk + seq![a, b]);
        let rest = VmState { stack: st.take(n - 1), alt: alt + emp() };
        if let Instr::If(t, e) = i {
            let m = rest.stack.len() as int;
            assert(rest.stack[m - 2] == a);
            if c == 1 {
                assert(t@.drop_first() =~= Seq::<Op>::empty());
                assert(rest.stack.push(a) =~= stk + seq![a, b, r]);
            } else {
                assert(e@.drop_first() =~= Seq::<Op>::empty());
                assert(rest.stack.push(0int) =~= stk + seq![a, b, r]);
            }
        }
    }
}

/// A failure in a prefix fails the whole run.
pub proof fn lemma_fails_prefix(a: Seq<Instr>, b: Seq<Instr>, pre: Seq<int>, pa: Seq<int>)
    requires
        fails_on(a, pre, pa),
    ensures
        fails_on(a + b, pre, pa),
{
    assert forall|stk: Seq<int>, alt: Seq<int>|
        #[trigger] run(a + b, VmState { stack: stk + pre, alt: alt + pa }) == None::<VmState> by {
        lemma_run_app(a, b, VmState { stack: stk + pre, alt: alt + pa });
        assert(run(a, VmState { stack: stk + pre, alt: alt + pa }) == None::<VmState>);
    }
}

/// Framing of a failing fragment.
pub proof fn lemma_frame_fails(ops: Seq<Instr>, pre: Seq<int>, pa: Seq<int>, w: Seq<int>, wa: Seq<int>)
    requires
        fails_on(ops, pre, pa),
    ensures
        fails_on(ops, w + pre, wa + pa),
{
    let gpre = (w + pre);
    let gpa = (wa + pa);
    assert forall|stk: Seq<int>, alt: Seq<int>|
        #[trigger] run(ops, VmState { stack: stk + gpre, alt: alt + gpa }) == None::<
            VmState,
        > by {
        assert(stk + (w + pre) =~= (stk + w) + pre);
        assert(alt + (wa + pa) =~= (alt + wa) + pa);
        assert(run(ops, VmState { stack: (stk + w) + pre, alt: (alt + wa) + pa }) == None::<
            VmState,
        >);
    }
}

} // verus!
