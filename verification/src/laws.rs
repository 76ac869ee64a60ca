//! General laws of the evaluator, proved once and for all against the
//! semantics. Atomicity — a failed `evaluate` leaves the operand stack
//! element-wise identical — is part of the contract of
//! [`crate::environment::Environment::evaluate`] itself.

use vstd::prelude::*;
use crate::element::Val;
use crate::function::Op;
use crate::semantics::{
    apply_op, arith_result, is_num, num_zero, one_step, popv, resolve_val, Cfg, EErr, FOut,
    StepRes, RESOLVE_LIMIT,
};

verus! {

/// Arithmetic promotion: for numeric operands, `add`, `subtract`,
/// `multiply` and `modulo` yield an integer exactly when both operands are
/// integers, and a float as soon as either operand is a float; `divide`
/// always yields a float. (A zero divisor is excluded here; see
/// [`law_division_by_zero_totality`].)
pub proof fn law_arithmetic_promotion(
    op: Op,
    s: Seq<Val>,
    vars: Map<Seq<char>, Val>,
    a: Val,
    b: Val,
)
    requires
        op == Op::Add || op == Op::Subtract || op == Op::Multiply || op == Op::Modulo || op
            == Op::Divide,
        is_num(a),
        is_num(b),
        (op == Op::Divide || op == Op::Modulo) ==> !num_zero(b),
    ensures
        arith_result(op, a, b) is Ok,
        apply_op(op, s.push(a).push(b), vars) == Ok::<(Seq<Val>, Map<Seq<char>, Val>, Seq<Val>), EErr>(
            (s.push(arith_result(op, a, b)->Ok_0), vars, Seq::<Val>::empty()),
        ),
        arith_result(op, a, b)->Ok_0 is Int <==> (a is Int && b is Int && op != Op::Divide),
        arith_result(op, a, b)->Ok_0 is Float <==> !(a is Int && b is Int && op != Op::Divide),
{
    let s1 = s.push(a).push(b);
    assert(s1.last() == b);
    assert(s1.drop_last() =~= s.push(a));
    assert(resolve_val(vars, b, RESOLVE_LIMIT as nat) == Ok::<Val, EErr>(b));
    assert(popv(s1, vars) == Ok::<(Val, Seq<Val>), EErr>((b, s.push(a))));
    assert(s.push(a).last() == a);
    assert(s.push(a).drop_last() =~= s);
    assert(resolve_val(vars, a, RESOLVE_LIMIT as nat) == Ok::<Val, EErr>(a));
    assert(popv(s.push(a), vars) == Ok::<(Val, Seq<Val>), EErr>((a, s)));
}

/// Division-by-zero totality: `divide` and `modulo` fail with the
/// zero-division error whenever the resolved right-hand operand is
/// numerically zero, whether it is the integer zero or a floating-point
/// zero of either sign — and before the left-hand operand is even popped.
pub proof fn law_division_by_zero_totality(op: Op, s: Seq<Val>, vars: Map<Seq<char>, Val>)
    requires
        op == Op::Divide || op == Op::Modulo,
        s.len() > 0,
        resolve_val(vars, s.last(), RESOLVE_LIMIT as nat) is Ok,
        num_zero(resolve_val(vars, s.last(), RESOLVE_LIMIT as nat)->Ok_0),
    ensures
        apply_op(op, s, vars) == Err::<(Seq<Val>, Map<Seq<char>, Val>, Seq<Val>), EErr>(
            EErr::DivisionByZero,
        ),
{
    let z = resolve_val(vars, s.last(), RESOLVE_LIMIT as nat)->Ok_0;
    assert(popv(s, vars) == Ok::<(Val, Seq<Val>), EErr>((z, s.drop_last())));
    assert(is_num(z));
}

/// Indirection resolution: a variable bound to another variable resolves
/// through the chain to the terminal value, not to the intermediate
/// variable.
pub proof fn law_indirection_resolution(
    vars: Map<Seq<char>, Val>,
    a: Seq<char>,
    b: Seq<char>,
    t: Val,
    fuel: nat,
)
    requires
        vars.dom().contains(a),
        vars[a] == Val::Var(b),
        vars.dom().contains(b),
        vars[b] == t,
        !(t is Var),
        !(t is Arr),
        fuel >= 2,
    ensures
        resolve_val(vars, Val::Var(a), fuel) == Ok::<Val, EErr>(t),
{
    assert(resolve_val(vars, Val::Var(a), fuel) == resolve_val(
        vars,
        Val::Var(b),
        (fuel - 1) as nat,
    ));
    assert(resolve_val(vars, Val::Var(b), (fuel - 1) as nat) == resolve_val(
        vars,
        t,
        (fuel - 2) as nat,
    ));
    assert(resolve_val(vars, t, (fuel - 2) as nat) == Ok::<Val, EErr>(t));
}

/// Splice semantics: evaluating a value that resolves to an array takes
/// the array off the stack and schedules its children for execution,
/// individually and in their original left-to-right order, ahead of the
/// rest of the program; evaluating a value that resolves to anything else
/// pushes the resolved value unchanged.
pub proof fn law_splice_semantics(
    s: Seq<Val>,
    vars: Map<Seq<char>, Val>,
    v: Val,
    rest: Seq<Val>,
    files: Seq<FOut>,
)
    requires
        s.len() > 0,
        resolve_val(vars, s.last(), RESOLVE_LIMIT as nat) == Ok::<Val, EErr>(v),
    ensures
        v is Arr ==> apply_op(Op::Eval, s, vars) == Ok::<
            (Seq<Val>, Map<Seq<char>, Val>, Seq<Val>),
            EErr,
        >((s.drop_last(), vars, v->Arr_0)),
        !(v is Arr) ==> apply_op(Op::Eval, s, vars) == Ok::<
            (Seq<Val>, Map<Seq<char>, Val>, Seq<Val>),
            EErr,
        >((s.drop_last().push(v), vars, Seq::<Val>::empty())),
        v is Arr ==> one_step(Cfg { stack: s, vars, work: seq![Val::Func(Op::Eval)] + rest }, files)
            == StepRes::Go(Cfg { stack: s.drop_last(), vars, work: v->Arr_0 + rest }, files),
{
    assert(popv(s, vars) == Ok::<(Val, Seq<Val>), EErr>((v, s.drop_last())));
    let w = seq![Val::Func(Op::Eval)] + rest;
    assert(w[0] == Val::Func(Op::Eval));
    assert(w.drop_first() =~= rest);
    if v is Arr {
        assert(apply_op(Op::Eval, s, vars) == Ok::<(Seq<Val>, Map<Seq<char>, Val>, Seq<Val>), EErr>(
            (s.drop_last(), vars, v->Arr_0),
        ));
    }
}

} // verus!
