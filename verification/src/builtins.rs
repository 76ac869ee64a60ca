//! The behaviors of the built-in operations: each is a transformation of
//! the environment, proved to apply exactly the operation's clause of
//! [`crate::semantics::apply_op`].

use vstd::prelude::*;
use crate::element::{
    bool_el, deep_seq, dup_element, float_el, int_el, lemma_deep_seq, Element, Val,
};
use crate::environment::{ev_err, undo_kept, Environment, EvaluationError};
use crate::fbits::{f_add, f_div, f_eq, f_fmod, f_le, f_lt, f_mul, f_of_int, f_sub, f_zero_test};
use crate::function::{Function, Op};
use crate::semantics::{
    apply_op, eval_pairs, float_arith, float_cmp, int_arith, int_cmp, rem_trunc, rep_count,
    repeat_seq, abs_i64,
};

verus! {

/// Whether applying `op` in the pre-state `(s0, v0)` accounts exactly for
/// the post-state `post` and the result `r`: on success the stack and the
/// variable table are as `apply_op` says and the returned elements are the
/// scheduled work; on failure the error is the one `apply_op` gives and the
/// variable table is untouched.
pub(crate) open spec fn op_applied(
    op: Op,
    s0: Seq<Val>,
    v0: Map<Seq<char>, Val>,
    post: Environment,
    r: Result<Vec<Element>, EvaluationError>,
) -> bool {
    match apply_op(op, s0, v0) {
        Ok((s1, v1, pre)) => r is Ok && post.stack_v() == s1 && post.vars_v() == v1 && deep_seq(
            r->Ok_0@,
        ) == pre,
        Err(e) => r is Err && ev_err(r->Err_0) == Some(e) && post.vars_v() == v0,
    }
}

/// An empty list of scheduled elements.
fn no_work() -> (r: Vec<Element>)
    ensures
        deep_seq(r@) == Seq::<Val>::empty(),
        r@.len() == 0,
{
    let r: Vec<Element> = Vec::new();
    proof {
        lemma_deep_seq(r@);
        assert(deep_seq(r@) =~= Seq::<Val>::empty());
    }
    r
}

/// The remainder of truncated 64-bit division, the semantics of `%`.
fn i64_rem(x: i64, y: i64) -> (r: i64)
    requires
        y != 0,
    ensures
        r == rem_trunc(x, y),
{
    let xm: u64 = if x >= 0 {
        x as u64
    } else {
        ((-(x + 1)) as u64) + 1
    };
    let ym: u64 = if y >= 0 {
        y as u64
    } else {
        ((-(y + 1)) as u64) + 1
    };
    proof {
        assert(xm == abs_i64(x));
        assert(ym == abs_i64(y));
    }
    let rm: u64 = xm % ym;
    if x >= 0 {
        rm as i64
    } else {
        -(rm as i64)
    }
}

/// Integer arithmetic, wrapping on overflow.
fn exec_int_arith(op: Op, x: i64, y: i64) -> (r: i64)
    requires
        op == Op::Add || op == Op::Subtract || op == Op::Multiply || (op == Op::Modulo && y != 0),
    ensures
        r == int_arith(op, x, y),
{
    match op {
        Op::Add => x.wrapping_add(y),
        Op::Subtract => x.wrapping_sub(y),
        Op::Multiply => x.wrapping_mul(y),
        _ => i64_rem(x, y),
    }
}

/// Binary64 arithmetic on bit patterns.
fn exec_float_arith(op: Op, a: u64, b: u64) -> (r: u64)
    ensures
        r == float_arith(op, a, b),
{
    match op {
        Op::Add => f_add(a, b),
        Op::Subtract => f_sub(a, b),
        Op::Multiply => f_mul(a, b),
        Op::Divide => f_div(a, b),
        Op::Modulo => f_fmod(a, b),
        _ => 0,
    }
}

/// Integer comparison.
fn exec_int_cmp(op: Op, x: i64, y: i64) -> (r: bool)
    ensures
        r == int_cmp(op, x, y),
{
    match op {
        Op::Less => x < y,
        Op::LessEqual => x <= y,
        Op::Equal => x == y,
        Op::Greater => x > y,
        Op::GreaterEqual => x >= y,
        _ => false,
    }
}

/// Binary64 comparison on bit patterns.
fn exec_float_cmp(op: Op, a: u64, b: u64) -> (r: bool)
    ensures
        r == float_cmp(op, a, b),
{
    match op {
        Op::Less => f_lt(a, b),
        Op::LessEqual => f_le(a, b),
        Op::Equal => f_eq(a, b),
        Op::Greater => f_lt(b, a),
        Op::GreaterEqual => f_le(b, a),
        _ => false,
    }
}

/// `add`, `subtract` and `multiply`: resolved-pop both operands, combine
/// under numeric promotion, push the result.
pub(crate) fn arith(env: &mut Environment, op: Op) -> (r: Result<Vec<Element>, EvaluationError>)
    requires
        op == Op::Add || op == Op::Subtract || op == Op::Multiply,
    ensures
        op_applied(op, old(env).stack_v(), old(env).vars_v(), *final(env), r),
        undo_kept(*old(env), *final(env)),
{
    let b = match env.pop_value() {
        Err(e) => {
            return Err(e);
        },
        Ok(v) => v,
    };
    let a = match env.pop_value() {
        Err(e) => {
            return Err(e);
        },
        Ok(v) => v,
    };
    match (a, b) {
        (Element::Integer(x), Element::Integer(y)) => {
            env.push_raw(int_el(exec_int_arith(op, x, y)));
            Ok(no_work())
        },
        (Element::Integer(x), Element::Float(bb)) => {
            env.push_raw(float_el(exec_float_arith(op, f_of_int(x), bb)));
            Ok(no_work())
        },
        (Element::Float(ab), Element::Integer(y)) => {
            env.push_raw(float_el(exec_float_arith(op, ab, f_of_int(y))));
            Ok(no_work())
        },
        (Element::Float(ab), Element::Float(bb)) => {
            env.push_raw(float_el(exec_float_arith(op, ab, bb)));
            Ok(no_work())
        },
        _ => Err(EvaluationError::FunctionNotApplicable),
    }
}

/// `divide` and `modulo`: resolved-pop both operands; a divisor that is
/// exactly zero fails before the dividend is popped; `divide` always pushes
/// a float, `modulo` follows promotion.
pub(crate) fn divmod(env: &mut Environment, op: Op) -> (r: Result<Vec<Element>, EvaluationError>)
    requires
        op == Op::Divide || op == Op::Modulo,
    ensures
        op_applied(op, old(env).stack_v(), old(env).vars_v(), *final(env), r),
        undo_kept(*old(env), *final(env)),
{
    let b = match env.pop_value() {
        Err(e) => {
            return Err(e);
        },
        Ok(v) => v,
    };
    match &b {
        Element::Integer(y) => {
            if *y == 0i64 {
                return Err(EvaluationError::DivisionByZero);
            }
        },
        Element::Float(bb) => {
            if f_zero_test(*bb) {
                return Err(EvaluationError::DivisionByZero);
            }
        },
        _ => {
            return Err(EvaluationError::FunctionNotApplicable);
        },
    }
    let a = match env.pop_value() {
        Err(e) => {
            return Err(e);
        },
        Ok(v) => v,
    };
    match (a, b) {
        (Element::Integer(x), Element::Integer(y)) => {
            if op == Op::Divide {
                env.push_raw(float_el(exec_float_arith(op, f_of_int(x), f_of_int(y))));
            } else {
                env.push_raw(int_el(exec_int_arith(op, x, y)));
            }
            Ok(no_work())
        },
        (Element::Integer(x), Element::Float(bb)) => {
            env.push_raw(float_el(exec_float_arith(op, f_of_int(x), bb)));
            Ok(no_work())
        },
        (Element::Float(ab), Element::Integer(y)) => {
            env.push_raw(float_el(exec_float_arith(op, ab, f_of_int(y))));
            Ok(no_work())
        },
        (Element::Float(ab), Element::Float(bb)) => {
            env.push_raw(float_el(exec_float_arith(op, ab, bb)));
            Ok(no_work())
        },
        _ => Err(EvaluationError::FunctionNotApplicable),
    }
}

/// The comparisons: resolved-pop both operands, compare numerically under
/// promotion (`equal` also compares two booleans), push the boolean.
pub(crate) fn compare(env: &mut Environment, op: Op) -> (r: Result<Vec<Element>, EvaluationError>)
    requires
        op == Op::Less || op == Op::LessEqual || op == Op::Equal || op == Op::Greater || op
            == Op::GreaterEqual,
    ensures
        op_applied(op, old(env).stack_v(), old(env).vars_v(), *final(env), r),
        undo_kept(*old(env), *final(env)),
{
    let b = match env.pop_value() {
        Err(e) => {
            return Err(e);
        },
        Ok(v) => v,
    };
    let a = match env.pop_value() {
        Err(e) => {
            return Err(e);
        },
        Ok(v) => v,
    };
    match (a, b) {
        (Element::Integer(x), Element::Integer(y)) => {
            env.push_raw(bool_el(exec_int_cmp(op, x, y)));
            Ok(no_work())
        },
        (Element::Integer(x), Element::Float(bb)) => {
            env.push_raw(bool_el(exec_float_cmp(op, f_of_int(x), bb)));
            Ok(no_work())
        },
        (Element::Float(ab), Element::Integer(y)) => {
            env.push_raw(bool_el(exec_float_cmp(op, ab, f_of_int(y))));
            Ok(no_work())
        },
        (Element::Float(ab), Element::Float(bb)) => {
            env.push_raw(bool_el(exec_float_cmp(op, ab, bb)));
            Ok(no_work())
        },
        (Element::Boolean(p), Element::Boolean(q)) => {
            if op == Op::Equal {
                env.push_raw(bool_el(p == q));
                Ok(no_work())
            } else {
                Err(EvaluationError::FunctionNotApplicable)
            }
        },
        _ => Err(EvaluationError::FunctionNotApplicable),
    }
}

/// `pop`: discard one raw element.
pub(crate) fn discard(env: &mut Environment) -> (r: Result<Vec<Element>, EvaluationError>)
    ensures
        op_applied(Op::Pop, old(env).stack_v(), old(env).vars_v(), *final(env), r),
        undo_kept(*old(env), *final(env)),
{
    match env.pop() {
        Err(e) => Err(e),
        Ok(_) => Ok(no_work()),
    }
}

/// `clear`: pop raw elements until the stack is empty.
pub(crate) fn clear(env: &mut Environment) -> (r: Result<Vec<Element>, EvaluationError>)
    ensures
        op_applied(Op::Clear, old(env).stack_v(), old(env).vars_v(), *final(env), r),
        undo_kept(*old(env), *final(env)),
{
    let ghost v0 = old(env).vars_v();
    let ghost pre = *old(env);
    while env.stack_len() > 0
        invariant
            env.vars_v() == v0,
            undo_kept(pre, *env),
        decreases env.stack_v().len(),
    {
        let popped = env.pop();
        proof {
            assert(popped is Ok);
        }
    }
    proof {
        assert(env.stack_v() =~= Seq::<Val>::empty());
    }
    Ok(no_work())
}

/// `rotate`: raw-pop two elements and push them back exchanged.
pub(crate) fn rotate(env: &mut Environment) -> (r: Result<Vec<Element>, EvaluationError>)
    ensures
        op_applied(Op::Rotate, old(env).stack_v(), old(env).vars_v(), *final(env), r),
        undo_kept(*old(env), *final(env)),
{
    let b = match env.pop() {
        Err(e) => {
            return Err(e);
        },
        Ok(v) => v,
    };
    let a = match env.pop() {
        Err(e) => {
            return Err(e);
        },
        Ok(v) => v,
    };
    env.push_raw(b);
    env.push_raw(a);
    Ok(no_work())
}

/// `copy`: raw-pop one element and push it twice.
pub(crate) fn duplicate(env: &mut Environment) -> (r: Result<Vec<Element>, EvaluationError>)
    ensures
        op_applied(Op::Copy, old(env).stack_v(), old(env).vars_v(), *final(env), r),
        undo_kept(*old(env), *final(env)),
{
    let a = match env.pop() {
        Err(e) => {
            return Err(e);
        },
        Ok(v) => v,
    };
    let c = dup_element(&a);
    env.push_raw(c);
    env.push_raw(a);
    Ok(no_work())
}

/// `assign`: raw-pop a variable, raw-pop the value unresolved, bind the
/// name. Binding without resolving is what makes indirection chains
/// possible.
pub(crate) fn assign(env: &mut Environment) -> (r: Result<Vec<Element>, EvaluationError>)
    ensures
        op_applied(Op::Assign, old(env).stack_v(), old(env).vars_v(), *final(env), r),
        undo_kept(*old(env), *final(env)),
{
    let v = match env.pop() {
        Err(e) => {
            return Err(e);
        },
        Ok(v) => v,
    };
    match v {
        Element::Variable(name) => {
            let value = match env.pop() {
                Err(e) => {
                    return Err(e);
                },
                Ok(v) => v,
            };
            env.assign_var(name, value);
            Ok(no_work())
        },
        _ => Err(EvaluationError::InvalidStackElements),
    }
}

/// `if`: raw-pop the false branch, then the true branch; resolved-pop the
/// condition, which must be a boolean; push the chosen branch unevaluated.
pub(crate) fn control_if(env: &mut Environment) -> (r: Result<Vec<Element>, EvaluationError>)
    ensures
        op_applied(Op::If, old(env).stack_v(), old(env).vars_v(), *final(env), r),
        undo_kept(*old(env), *final(env)),
{
    let result_false = match env.pop() {
        Err(e) => {
            return Err(e);
        },
        Ok(v) => v,
    };
    let result_true = match env.pop() {
        Err(e) => {
            return Err(e);
        },
        Ok(v) => v,
    };
    match env.pop_value() {
        Err(e) => Err(e),
        Ok(Element::Boolean(true)) => {
            env.push_raw(result_true);
            Ok(no_work())
        },
        Ok(Element::Boolean(false)) => {
            env.push_raw(result_false);
            Ok(no_work())
        },
        Ok(_) => Err(EvaluationError::InvalidStackElements),
    }
}

/// `eval`: resolved-pop one element; an array's children are scheduled for
/// execution in their original order, anything else is pushed unchanged.
pub(crate) fn eval(env: &mut Environment) -> (r: Result<Vec<Element>, EvaluationError>)
    ensures
        op_applied(Op::Eval, old(env).stack_v(), old(env).vars_v(), *final(env), r),
        undo_kept(*old(env), *final(env)),
{
    match env.pop_value() {
        Err(e) => Err(e),
        Ok(Element::Array(children)) => Ok(children),
        Ok(other) => {
            env.push_raw(other);
            Ok(no_work())
        },
    }
}

/// `repeat`: resolved-pop an integer count, raw-pop one element, push that
/// element count times unevaluated.
pub(crate) fn repeat(env: &mut Environment) -> (r: Result<Vec<Element>, EvaluationError>)
    ensures
        op_applied(Op::Repeat, old(env).stack_v(), old(env).vars_v(), *final(env), r),
        undo_kept(*old(env), *final(env)),
{
    let c = match env.pop_value() {
        Err(e) => {
            return Err(e);
        },
        Ok(v) => v,
    };
    match c {
        Element::Integer(n) => {
            let el = match env.pop() {
                Err(e) => {
                    return Err(e);
                },
                Ok(v) => v,
            };
            let ghost s2 = env.stack_v();
            let ghost vv = el.val();
            let ghost pre = *old(env);
            let ghost v0 = env.vars_v();
            let mut k: i64 = 0;
            while k < n
                invariant
                    0 <= k,
                    n > 0 ==> k <= n,
                    n <= 0 ==> k == 0,
                    vv == el.val(),
                    env.stack_v() == s2 + repeat_seq(vv, k as nat),
                    env.vars_v() == v0,
                    undo_kept(pre, *env),
                decreases n - k,
            {
                env.push_raw(dup_element(&el));
                k = k + 1;
                proof {
                    assert(repeat_seq(vv, k as nat) == repeat_seq(vv, (k - 1) as nat).push(vv));
                    assert(s2 + repeat_seq(vv, k as nat) =~= (s2 + repeat_seq(
                        vv,
                        (k - 1) as nat,
                    )).push(vv));
                }
            }
            proof {
                assert(k == rep_count(n));
                if n <= 0 {
                    assert(s2 + repeat_seq(vv, 0) =~= s2);
                }
            }
            Ok(no_work())
        },
        _ => Err(EvaluationError::InvalidStackElements),
    }
}

/// `repeat_eval`: like `repeat`, but each pushed copy is followed by an
/// `eval`, so the element is evaluated count times.
pub(crate) fn repeat_eval(env: &mut Environment) -> (r: Result<Vec<Element>, EvaluationError>)
    ensures
        op_applied(Op::RepeatEval, old(env).stack_v(), old(env).vars_v(), *final(env), r),
        undo_kept(*old(env), *final(env)),
{
    let c = match env.pop_value() {
        Err(e) => {
            return Err(e);
        },
        Ok(v) => v,
    };
    match c {
        Element::Integer(n) => {
            let el = match env.pop() {
                Err(e) => {
                    return Err(e);
                },
                Ok(v) => v,
            };
            let ghost vv = el.val();
            let mut work: Vec<Element> = Vec::new();
            proof {
                lemma_deep_seq(work@);
                assert(deep_seq(work@) =~= eval_pairs(vv, 0));
            }
            let mut k: i64 = 0;
            while k < n
                invariant
                    0 <= k,
                    n > 0 ==> k <= n,
                    n <= 0 ==> k == 0,
                    vv == el.val(),
                    deep_seq(work@) == eval_pairs(vv, k as nat),
                decreases n - k,
            {
                let ghost w0 = work@;
                work.push(dup_element(&el));
                let ghost w1 = work@;
                work.push(Element::Function(Function { op: Op::Eval }));
                k = k + 1;
                proof {
                    assert(w1.drop_last() =~= w0);
                    assert(work@.drop_last() =~= w1);
                    assert(deep_seq(w1) == deep_seq(w0).push(w1.last().val()));
                    assert(w1.last().val() == vv);
                    assert(deep_seq(work@) == deep_seq(w1).push(work@.last().val()));
                    assert(work@.last().val() == Val::Func(Op::Eval));
                    assert(deep_seq(work@) == deep_seq(w0).push(vv).push(Val::Func(Op::Eval)));
                    assert(eval_pairs(vv, k as nat) == eval_pairs(vv, (k - 1) as nat) + seq![
                        vv,
                        Val::Func(Op::Eval),
                    ]);
                    assert(deep_seq(w0).push(vv).push(Val::Func(Op::Eval)) =~= deep_seq(w0)
                        + seq![vv, Val::Func(Op::Eval)]);
                }
            }
            proof {
                assert(k == rep_count(n));
            }
            Ok(work)
        },
        _ => Err(EvaluationError::InvalidStackElements),
    }
}

/// `append`: raw-pop an element, raw-pop an array, push a new array whose
/// elements are the array's followed by the element.
pub(crate) fn append(env: &mut Environment) -> (r: Result<Vec<Element>, EvaluationError>)
    ensures
        op_applied(Op::Append, old(env).stack_v(), old(env).vars_v(), *final(env), r),
        undo_kept(*old(env), *final(env)),
{
    let b = match env.pop() {
        Err(_) => {
            return Err(EvaluationError::InvalidStackElements);
        },
        Ok(v) => v,
    };
    let a = match env.pop() {
        Err(_) => {
            return Err(EvaluationError::InvalidStackElements);
        },
        Ok(v) => v,
    };
    match a {
        Element::Array(mut items) => {
            let ghost items0 = items@;
            let ghost bv = b.val();
            items.push(b);
            proof {
                assert(items@.drop_last() =~= items0);
                assert(deep_seq(items@) == deep_seq(items0).push(bv));
            }
            env.push_raw(Element::Array(items));
            Ok(no_work())
        },
        _ => Err(EvaluationError::InvalidStackElements),
    }
}

/// `concatenate`: raw-pop two arrays, push their elementwise concatenation,
/// the left array's elements first.
pub(crate) fn concatenate(env: &mut Environment) -> (r: Result<Vec<Element>, EvaluationError>)
    ensures
        op_applied(Op::Concatenate, old(env).stack_v(), old(env).vars_v(), *final(env), r),
        undo_kept(*old(env), *final(env)),
{
    let b = match env.pop() {
        Err(_) => {
            return Err(EvaluationError::InvalidStackElements);
        },
        Ok(v) => v,
    };
    let a = match env.pop() {
        Err(_) => {
            return Err(EvaluationError::InvalidStackElements);
        },
        Ok(v) => v,
    };
    match (a, b) {
        (Element::Array(mut xs), Element::Array(mut ys)) => {
            let ghost xs0 = xs@;
            let ghost ys0 = ys@;
            xs.append(&mut ys);
            proof {
                lemma_deep_seq(xs@);
                lemma_deep_seq(xs0);
                lemma_deep_seq(ys0);
                assert forall|j: int| 0 <= j < xs@.len() implies deep_seq(xs@)[j] == (deep_seq(xs0)
                    + deep_seq(ys0))[j] by {
                    assert(deep_seq(xs@)[j] == xs@[j].val());
                    if j < xs0.len() {
                        assert(xs@[j] == xs0[j]);
                        assert((deep_seq(xs0) + deep_seq(ys0))[j] == deep_seq(xs0)[j]);
                        assert(deep_seq(xs0)[j] == xs0[j].val());
                    } else {
                        assert(xs@[j] == ys0[j - xs0.len()]);
                        assert((deep_seq(xs0) + deep_seq(ys0))[j] == deep_seq(ys0)[j - xs0.len()]);
                        assert(deep_seq(ys0)[j - xs0.len()] == ys0[j - xs0.len()].val());
                    }
                }
                assert(deep_seq(xs@) =~= deep_seq(xs0) + deep_seq(ys0));
            }
            env.push_raw(Element::Array(xs));
            Ok(no_work())
        },
        _ => Err(EvaluationError::InvalidStackElements),
    }
}

/// `make_array`: raw-pop a positive integer count, raw-pop that many
/// elements, and push them as one array in their original bottom-to-top
/// order.
pub(crate) fn make_array(env: &mut Environment) -> (r: Result<Vec<Element>, EvaluationError>)
    ensures
        op_applied(Op::MakeArray, old(env).stack_v(), old(env).vars_v(), *final(env), r),
        undo_kept(*old(env), *final(env)),
{
    let c = match env.pop() {
        Err(_) => {
            return Err(EvaluationError::InvalidStackElements);
        },
        Ok(v) => v,
    };
    match c {
        Element::Integer(n) => {
            if n <= 0 {
                return Err(EvaluationError::InvalidStackElements);
            }
            let ghost s1 = env.stack_v();
            let ghost pre = *old(env);
            let ghost v0 = env.vars_v();
            if (env.stack_len() as u64) < (n as u64) {
                return Err(EvaluationError::EmptyStack);
            }
            proof {
                assert(s1.len() >= n);
                assert(s1.subrange(0, s1.len() - 0) =~= s1);
            }
            let mut tmp: Vec<Element> = Vec::new();
            let mut k: i64 = 0;
            while k < n
                invariant
                    0 <= k <= n <= s1.len(),
                    env.vars_v() == v0,
                    undo_kept(pre, *env),
                    env.stack_v() == s1.subrange(0, s1.len() - k),
                    tmp@.len() == k,
                    forall|j: int| 0 <= j < k ==> #[trigger] tmp@[j].val() == s1[s1.len() - 1 - j],
                decreases n - k,
            {
                proof {
                    assert(env.stack_v().len() == s1.len() - k > 0);
                }
                let el = match env.pop() {
                    Err(e) => {
                        proof {
                            assert(false);
                        }
                        return Err(e);
                    },
                    Ok(v) => v,
                };
                proof {
                    assert(s1.subrange(0, s1.len() - k).drop_last() =~= s1.subrange(
                        0,
                        s1.len() - k - 1,
                    ));
                    assert(s1.subrange(0, s1.len() - k).last() == s1[s1.len() - 1 - k]);
                }
                tmp.push(el);
                k = k + 1;
            }
            let mut arr: Vec<Element> = Vec::new();
            while tmp.len() > 0
                invariant
                    tmp@.len() + arr@.len() == n,
                    n <= s1.len(),
                    forall|j: int| 0 <= j < tmp@.len() ==> #[trigger] tmp@[j].val() == s1[s1.len()
                        - 1 - j],
                    forall|j: int| 0 <= j < arr@.len() ==> #[trigger] arr@[j].val() == s1[s1.len()
                        - n + j],
                decreases tmp@.len(),
            {
                let ghost tmp0 = tmp@;
                let el = tmp.pop().unwrap();
                proof {
                    assert(el.val() == s1[s1.len() - 1 - (tmp0.len() - 1)]);
                    assert(s1.len() - 1 - (tmp0.len() - 1) == s1.len() - tmp0.len());
                }
                arr.push(el);
            }
            proof {
                lemma_deep_seq(arr@);
                assert forall|j: int| 0 <= j < arr@.len() implies deep_seq(arr@)[j] == s1.subrange(
                    s1.len() - n,
                    s1.len() as int,
                )[j] by {
                    assert(arr@[j].val() == s1[s1.len() - n + j]);
                }
                assert(deep_seq(arr@) =~= s1.subrange(s1.len() - n, s1.len() as int));
            }
            env.push_raw(Element::Array(arr));
            Ok(no_work())
        },
        _ => Err(EvaluationError::InvalidStackElements),
    }
}

/// Applies one catalog operation other than `read`.
pub(crate) fn apply(env: &mut Environment, op: Op) -> (r: Result<Vec<Element>, EvaluationError>)
    requires
        op != Op::Read,
    ensures
        op_applied(op, old(env).stack_v(), old(env).vars_v(), *final(env), r),
        undo_kept(*old(env), *final(env)),
{
    match op {
        Op::Add | Op::Subtract | Op::Multiply => arith(env, op),
        Op::Divide | Op::Modulo => divmod(env, op),
        Op::Less | Op::LessEqual | Op::Equal | Op::Greater | Op::GreaterEqual => compare(env, op),
        Op::Pop => discard(env),
        Op::Clear => clear(env),
        Op::Rotate => rotate(env),
        Op::Copy => duplicate(env),
        Op::Assign => assign(env),
        Op::If => control_if(env),
        Op::Eval => eval(env),
        Op::Repeat => repeat(env),
        Op::RepeatEval => repeat_eval(env),
        Op::Append => append(env),
        Op::Concatenate => concatenate(env),
        Op::MakeArray => make_array(env),
        Op::Read => Err(EvaluationError::InvalidStackElements),
    }
}

} // verus!
