//! The mathematical semantics of evaluation.
//!
//! A configuration holds the model of the operand stack, the variable table
//! and the remaining work: the elements still to be executed, first element
//! next. One step executes one element: a function element applies its
//! operation, any other element is pushed. `run` iterates steps; evaluation
//! of a source text is then a run from the parsed elements, and the
//! evaluator is proved to realize exactly this function.

use vstd::prelude::*;
use crate::element::Val;
use crate::fbits::{
    add_bits, div_bits, eq_bits, f_is_zero, float_of_int, fmod_bits, le_bits, lt_bits, mul_bits,
    sub_bits,
};
use crate::function::Op;
use crate::parser::{parse_spec, PErr};

verus! {

/// Fuel for variable resolution: an indirection chain longer than this is
/// reported as circular.
pub const RESOLVE_LIMIT: u64 = 1024;

/// Steps one evaluation may take before it is cut off.
pub const STEP_BUDGET: u64 = 0x10_0000;

/// Mathematical model of an evaluation-time failure.
pub enum EErr {
    Parser(PErr),
    EmptyStack,
    DivisionByZero,
    FunctionNotApplicable,
    UndefinedVariable(Seq<char>),
    InvalidStackElements,
    CircularVariableReference,
    NotAString,
    NotACharacter,
    IO(Seq<char>),
}

/// The outcome of one request to the file collaborator: the text of the
/// file, or a message describing the failure.
pub type FOut = Result<Seq<char>, Seq<char>>;

/// A configuration of the evaluator.
pub struct Cfg {
    /// The operand stack, bottom first.
    pub stack: Seq<Val>,
    /// The variable table.
    pub vars: Map<Seq<char>, Val>,
    /// The elements still to execute, next first.
    pub work: Seq<Val>,
}

/// Resolution of a value to a terminal: a variable is looked up and its
/// value resolved again, until a non-variable is reached or the fuel runs
/// out; the children of an array are resolved one by one; anything else is
/// already terminal.
pub open spec fn resolve_val(vars: Map<Seq<char>, Val>, v: Val, fuel: nat) -> Result<Val, EErr>
    decreases fuel, v, 0int,
{
    match v {
        Val::Var(n) => if fuel == 0 {
            Err(EErr::CircularVariableReference)
        } else if vars.dom().contains(n) {
            resolve_val(vars, vars[n], (fuel - 1) as nat)
        } else {
            Err(EErr::UndefinedVariable(n))
        },
        Val::Arr(s) => match resolve_seq(vars, s, fuel) {
            Ok(t) => Ok(Val::Arr(t)),
            Err(e) => Err(e),
        },
        _ => Ok(v),
    }
}

/// Resolution of each value of a sequence, left to right, failing on the
/// first failure.
pub open spec fn resolve_seq(vars: Map<Seq<char>, Val>, s: Seq<Val>, fuel: nat) -> Result<
    Seq<Val>,
    EErr,
>
    decreases fuel, s, s.len(),
{
    if s.len() == 0 {
        Ok(seq![])
    } else {
        match resolve_val(vars, s[0], fuel) {
            Err(e) => Err(e),
            Ok(h) => match resolve_seq(vars, s.drop_first(), fuel) {
                Err(e) => Err(e),
                Ok(t) => Ok(seq![h] + t),
            },
        }
    }
}

/// Popping the raw top of the stack.
pub open spec fn popr(s: Seq<Val>) -> Result<(Val, Seq<Val>), EErr> {
    if s.len() == 0 {
        Err(EErr::EmptyStack)
    } else {
        Ok((s.last(), s.drop_last()))
    }
}

/// Popping the top of the stack and resolving it.
pub open spec fn popv(s: Seq<Val>, vars: Map<Seq<char>, Val>) -> Result<(Val, Seq<Val>), EErr> {
    if s.len() == 0 {
        Err(EErr::EmptyStack)
    } else {
        match resolve_val(vars, s.last(), RESOLVE_LIMIT as nat) {
            Ok(v) => Ok((v, s.drop_last())),
            Err(e) => Err(e),
        }
    }
}

/// Whether a value is numeric.
pub open spec fn is_num(v: Val) -> bool {
    v is Int || v is Float
}

/// Whether a numeric value is exactly zero.
pub open spec fn num_zero(v: Val) -> bool {
    match v {
        Val::Int(x) => x == 0,
        Val::Float(b) => f_is_zero(b),
        _ => false,
    }
}

/// The absolute value of a 64-bit signed integer.
pub open spec fn abs_i64(x: i64) -> int {
    if x >= 0 {
        x as int
    } else {
        -(x as int)
    }
}

/// The remainder of truncated division, as `%` computes it on 64-bit signed
/// integers: the sign follows the dividend.
pub open spec fn rem_trunc(x: i64, y: i64) -> i64
    recommends
        y != 0,
{
    if x >= 0 {
        (abs_i64(x) % abs_i64(y)) as i64
    } else {
        (-(abs_i64(x) % abs_i64(y))) as i64
    }
}

/// Integer arithmetic, wrapping on overflow.
pub open spec fn int_arith(op: Op, x: i64, y: i64) -> i64 {
    match op {
        Op::Add => vstd::wrapping::i64_specs::wrapping_add(x, y),
        Op::Subtract => vstd::wrapping::i64_specs::wrapping_sub(x, y),
        Op::Multiply => vstd::wrapping::i64_specs::wrapping_mul(x, y),
        Op::Modulo => rem_trunc(x, y),
        _ => 0,
    }
}

/// Binary64 arithmetic on bit patterns.
pub open spec fn float_arith(op: Op, a: u64, b: u64) -> u64 {
    match op {
        Op::Add => add_bits(a, b),
        Op::Subtract => sub_bits(a, b),
        Op::Multiply => mul_bits(a, b),
        Op::Divide => div_bits(a, b),
        Op::Modulo => fmod_bits(a, b),
        _ => 0,
    }
}

/// The result an arithmetic operation pushes, after numeric promotion:
/// two integers stay an integer (except for division, which always yields a
/// float), any float operand promotes the other side to float.
pub open spec fn arith_result(op: Op, a: Val, b: Val) -> Result<Val, EErr> {
    match (a, b) {
        (Val::Int(x), Val::Int(y)) => if op == Op::Divide {
            Ok(Val::Float(div_bits(float_of_int(x), float_of_int(y))))
        } else {
            Ok(Val::Int(int_arith(op, x, y)))
        },
        (Val::Int(x), Val::Float(bb)) => Ok(Val::Float(float_arith(op, float_of_int(x), bb))),
        (Val::Float(ab), Val::Int(y)) => Ok(Val::Float(float_arith(op, ab, float_of_int(y)))),
        (Val::Float(ab), Val::Float(bb)) => Ok(Val::Float(float_arith(op, ab, bb))),
        _ => Err(EErr::FunctionNotApplicable),
    }
}

/// Integer comparison.
pub open spec fn int_cmp(op: Op, x: i64, y: i64) -> bool {
    match op {
        Op::Less => x < y,
        Op::LessEqual => x <= y,
        Op::Equal => x == y,
        Op::Greater => x > y,
        Op::GreaterEqual => x >= y,
        _ => false,
    }
}

/// Binary64 comparison on bit patterns; the greater-than forms are the
/// less-than forms with the operands exchanged.
pub open spec fn float_cmp(op: Op, a: u64, b: u64) -> bool {
    match op {
        Op::Less => lt_bits(a, b),
        Op::LessEqual => le_bits(a, b),
        Op::Equal => eq_bits(a, b),
        Op::Greater => lt_bits(b, a),
        Op::GreaterEqual => le_bits(b, a),
        _ => false,
    }
}

/// The boolean a comparison pushes: numeric cross-type comparison under
/// promotion; equality additionally compares two booleans.
pub open spec fn cmp_result(op: Op, a: Val, b: Val) -> Result<bool, EErr> {
    match (a, b) {
        (Val::Int(x), Val::Int(y)) => Ok(int_cmp(op, x, y)),
        (Val::Int(x), Val::Float(bb)) => Ok(float_cmp(op, float_of_int(x), bb)),
        (Val::Float(ab), Val::Int(y)) => Ok(float_cmp(op, ab, float_of_int(y))),
        (Val::Float(ab), Val::Float(bb)) => Ok(float_cmp(op, ab, bb)),
        (Val::Bool(p), Val::Bool(q)) => if op == Op::Equal {
            Ok(p == q)
        } else {
            Err(EErr::FunctionNotApplicable)
        },
        _ => Err(EErr::FunctionNotApplicable),
    }
}

/// `v` repeated `k` times.
pub open spec fn repeat_seq(v: Val, k: nat) -> Seq<Val>
    decreases k,
{
    if k == 0 {
        Seq::empty()
    } else {
        repeat_seq(v, (k - 1) as nat).push(v)
    }
}

/// `v` followed by an `eval`, `k` times over: the work `repeat_eval`
/// schedules.
pub open spec fn eval_pairs(v: Val, k: nat) -> Seq<Val>
    decreases k,
{
    if k == 0 {
        Seq::empty()
    } else {
        eval_pairs(v, (k - 1) as nat) + seq![v, Val::Func(Op::Eval)]
    }
}

/// The repetition count of `repeat` and `repeat_eval`: zero for a negative
/// request.
pub open spec fn rep_count(n: i64) -> nat {
    if n <= 0 {
        0
    } else {
        n as nat
    }
}

/// What applying one operation to the stack and variable table yields: the
/// new stack, the new variable table, and the elements the operation
/// schedules for execution before the rest of the program (only `eval` and
/// `repeat_eval` schedule any); or the failure.
///
/// `read` is not applied here: what it does depends on the file
/// collaborator, and is part of [`one_step`].
pub open spec fn apply_op(op: Op, s0: Seq<Val>, vars: Map<Seq<char>, Val>) -> Result<
    (Seq<Val>, Map<Seq<char>, Val>, Seq<Val>),
    EErr,
> {
    match op {
        Op::Add | Op::Subtract | Op::Multiply => match popv(s0, vars) {
            Err(e) => Err(e),
            Ok((b, s1)) => match popv(s1, vars) {
                Err(e) => Err(e),
                Ok((a, s2)) => match arith_result(op, a, b) {
                    Err(e) => Err(e),
                    Ok(c) => Ok((s2.push(c), vars, seq![])),
                },
            },
        },
        Op::Divide | Op::Modulo => match popv(s0, vars) {
            Err(e) => Err(e),
            Ok((b, s1)) => if !is_num(b) {
                Err(EErr::FunctionNotApplicable)
            } else if num_zero(b) {
                Err(EErr::DivisionByZero)
            } else {
                match popv(s1, vars) {
                    Err(e) => Err(e),
                    Ok((a, s2)) => match arith_result(op, a, b) {
                        Err(e) => Err(e),
                        Ok(c) => Ok((s2.push(c), vars, seq![])),
                    },
                }
            },
        },
        Op::Less | Op::LessEqual | Op::Equal | Op::Greater | Op::GreaterEqual => match popv(
            s0,
            vars,
        ) {
            Err(e) => Err(e),
            Ok((b, s1)) => match popv(s1, vars) {
                Err(e) => Err(e),
                Ok((a, s2)) => match cmp_result(op, a, b) {
                    Err(e) => Err(e),
                    Ok(t) => Ok((s2.push(Val::Bool(t)), vars, seq![])),
                },
            },
        },
        Op::Pop => match popr(s0) {
            Err(e) => Err(e),
            Ok((_, s1)) => Ok((s1, vars, seq![])),
        },
        Op::Clear => Ok((seq![], vars, seq![])),
        Op::Rotate => match popr(s0) {
            Err(e) => Err(e),
            Ok((b, s1)) => match popr(s1) {
                Err(e) => Err(e),
                Ok((a, s2)) => Ok((s2.push(b).push(a), vars, seq![])),
            },
        },
        Op::Copy => match popr(s0) {
            Err(e) => Err(e),
            Ok((v, s1)) => Ok((s1.push(v).push(v), vars, seq![])),
        },
        Op::Assign => match popr(s0) {
            Err(e) => Err(e),
            Ok((v, s1)) => match v {
                Val::Var(name) => match popr(s1) {
                    Err(e) => Err(e),
                    Ok((value, s2)) => Ok((s2, vars.insert(name, value), seq![])),
                },
                _ => Err(EErr::InvalidStackElements),
            },
        },
        Op::If => match popr(s0) {
            Err(e) => Err(e),
            Ok((fb, s1)) => match popr(s1) {
                Err(e) => Err(e),
                Ok((tb, s2)) => match popv(s2, vars) {
                    Err(e) => Err(e),
                    Ok((cond, s3)) => match cond {
                        Val::Bool(true) => Ok((s3.push(tb), vars, seq![])),
                        Val::Bool(false) => Ok((s3.push(fb), vars, seq![])),
                        _ => Err(EErr::InvalidStackElements),
                    },
                },
            },
        },
        Op::Eval => match popv(s0, vars) {
            Err(e) => Err(e),
            Ok((v, s1)) => match v {
                Val::Arr(children) => Ok((s1, vars, children)),
                _ => Ok((s1.push(v), vars, seq![])),
            },
        },
        Op::Repeat => match popv(s0, vars) {
            Err(e) => Err(e),
            Ok((c, s1)) => match c {
                Val::Int(n) => match popr(s1) {
                    Err(e) => Err(e),
                    Ok((v, s2)) => Ok((s2 + repeat_seq(v, rep_count(n)), vars, seq![])),
                },
                _ => Err(EErr::InvalidStackElements),
            },
        },
        Op::RepeatEval => match popv(s0, vars) {
            Err(e) => Err(e),
            Ok((c, s1)) => match c {
                Val::Int(n) => match popr(s1) {
                    Err(e) => Err(e),
                    Ok((v, s2)) => Ok((s2, vars, eval_pairs(v, rep_count(n)))),
                },
                _ => Err(EErr::InvalidStackElements),
            },
        },
        Op::Append => match popr(s0) {
            Err(_) => Err(EErr::InvalidStackElements),
            Ok((b, s1)) => match popr(s1) {
                Err(_) => Err(EErr::InvalidStackElements),
                Ok((a, s2)) => match a {
                    Val::Arr(items) => Ok((s2.push(Val::Arr(items.push(b))), vars, seq![])),
                    _ => Err(EErr::InvalidStackElements),
                },
            },
        },
        Op::Concatenate => match popr(s0) {
            Err(_) => Err(EErr::InvalidStackElements),
            Ok((b, s1)) => match popr(s1) {
                Err(_) => Err(EErr::InvalidStackElements),
                Ok((a, s2)) => match (a, b) {
                    (Val::Arr(xs), Val::Arr(ys)) => Ok((s2.push(Val::Arr(xs + ys)), vars, seq![])),
                    _ => Err(EErr::InvalidStackElements),
                },
            },
        },
        Op::MakeArray => match popr(s0) {
            Err(_) => Err(EErr::InvalidStackElements),
            Ok((c, s1)) => match c {
                Val::Int(n) => if n <= 0 {
                    Err(EErr::InvalidStackElements)
                } else if s1.len() < n {
                    Err(EErr::EmptyStack)
                } else {
                    Ok(
                        (
                            s1.subrange(0, s1.len() - n).push(
                                Val::Arr(s1.subrange(s1.len() - n, s1.len() as int)),
                            ),
                            vars,
                            seq![],
                        ),
                    )
                },
                _ => Err(EErr::InvalidStackElements),
            },
        },
        Op::Read => Err(EErr::InvalidStackElements),
    }
}

/// The characters of a string-shaped value: an array whose children are all
/// characters.
pub open spec fn chars_of(v: Val) -> Option<Seq<char>> {
    match v {
        Val::Arr(s) => if forall|i: int| 0 <= i < s.len() ==> s[i] is Char {
            Some(Seq::new(s.len(), |i: int| s[i]->Char_0))
        } else {
            None
        },
        _ => None,
    }
}

/// The message `read` reports when no file collaborator is present.
pub open spec fn no_source_msg() -> Seq<char> {
    "no file source"@
}

/// The outcome of one step.
pub enum StepRes {
    /// The evaluation goes on in a new configuration, with the file
    /// outcomes not yet consumed.
    Go(Cfg, Seq<FOut>),
    /// The work is done.
    Done(Cfg),
    /// The step failed; the variable table stands as it was at the failure.
    Fail(Map<Seq<char>, Val>, EErr),
}

/// One step of evaluation: with no work left, the evaluation is done.
/// Otherwise the first work element is executed: a function element applies
/// its operation — `read` resolves a file name off the stack, consumes the
/// next file outcome and schedules the parsed text — and any other element
/// is pushed onto the stack.
pub open spec fn one_step(cfg: Cfg, files: Seq<FOut>) -> StepRes {
    if cfg.work.len() == 0 {
        StepRes::Done(cfg)
    } else {
        let h = cfg.work[0];
        let rest = cfg.work.drop_first();
        match h {
            Val::Func(op) => if op == Op::Read {
                match popv(cfg.stack, cfg.vars) {
                    Err(e) => StepRes::Fail(cfg.vars, e),
                    Ok((v, s1)) => match chars_of(v) {
                        None => StepRes::Fail(cfg.vars, EErr::NotAString),
                        Some(_) => if files.len() == 0 {
                            StepRes::Fail(cfg.vars, EErr::IO(no_source_msg()))
                        } else {
                            match files[0] {
                                Err(m) => StepRes::Fail(cfg.vars, EErr::IO(m)),
                                Ok(text) => match parse_spec(text) {
                                    Err(pe) => StepRes::Fail(cfg.vars, EErr::Parser(pe)),
                                    Ok(elems) => StepRes::Go(
                                        Cfg { stack: s1, vars: cfg.vars, work: elems + rest },
                                        files.drop_first(),
                                    ),
                                },
                            }
                        },
                    },
                }
            } else {
                match apply_op(op, cfg.stack, cfg.vars) {
                    Err(e) => StepRes::Fail(cfg.vars, e),
                    Ok((s1, v1, pre)) => StepRes::Go(
                        Cfg { stack: s1, vars: v1, work: pre + rest },
                        files,
                    ),
                }
            },
            _ => StepRes::Go(
                Cfg { stack: cfg.stack.push(h), vars: cfg.vars, work: rest },
                files,
            ),
        }
    }
}

/// The state of an evaluation after at most `n` steps.
pub enum RunRes {
    /// Still going after `n` steps.
    Going(Cfg, Seq<FOut>),
    /// Finished, in this configuration.
    Done(Cfg),
    /// Failed, with the variable table at the failure and the error.
    Failed(Map<Seq<char>, Val>, EErr),
}

/// Runs up to `n` steps from a configuration, consuming file outcomes as
/// `read` operations are executed.
pub open spec fn run(cfg: Cfg, files: Seq<FOut>, n: nat) -> RunRes
    decreases n,
{
    if n == 0 {
        RunRes::Going(cfg, files)
    } else {
        match one_step(cfg, files) {
            StepRes::Done(c) => RunRes::Done(c),
            StepRes::Fail(v, e) => RunRes::Failed(v, e),
            StepRes::Go(c, f) => run(c, f, (n - 1) as nat),
        }
    }
}

/// The result of a step, as a run result.
pub open spec fn step_lift(s: StepRes) -> RunRes {
    match s {
        StepRes::Go(c, f) => RunRes::Going(c, f),
        StepRes::Done(c) => RunRes::Done(c),
        StepRes::Fail(v, e) => RunRes::Failed(v, e),
    }
}

/// A run that is still going after `n` steps continues with one more step.
pub proof fn lemma_run_extend(c0: Cfg, f0: Seq<FOut>, n: nat, c: Cfg, f: Seq<FOut>)
    requires
        run(c0, f0, n) == RunRes::Going(c, f),
    ensures
        run(c0, f0, n + 1) == step_lift(one_step(c, f)),
    decreases n,
{
    if n == 0 {
        assert(c0 == c && f0 == f);
        match one_step(c0, f0) {
            StepRes::Go(c1, f1) => {
                assert(run(c0, f0, 1) == run(c1, f1, 0));
            },
            StepRes::Done(c1) => {
                assert(run(c0, f0, 1) == RunRes::Done(c1));
            },
            StepRes::Fail(v, e) => {
                assert(run(c0, f0, 1) == RunRes::Failed(v, e));
            },
        }
    } else {
        match one_step(c0, f0) {
            StepRes::Go(c1, f1) => {
                assert(run(c1, f1, (n - 1) as nat) == RunRes::Going(c, f));
                lemma_run_extend(c1, f1, (n - 1) as nat, c, f);
                assert(run(c0, f0, n + 1) == run(c1, f1, n));
            },
            _ => {},
        }
    }
}

} // verus!
