//! The environment: the operand stack, the variable table, and the undo log
//! that makes every evaluation call all-or-nothing.

use vstd::prelude::*;
use crate::chars::str_eq;
use crate::element::{deep_seq, dup_element, lemma_deep_seq, lemma_deep_seq_auto, Element, Val};
use crate::parser::{parse_spec, ParserError};
use crate::semantics::{
    chars_of, lemma_run_extend, no_source_msg, one_step, popr, popv, resolve_seq, resolve_val,
    run, Cfg, EErr, FOut, RunRes, StepRes, RESOLVE_LIMIT, STEP_BUDGET,
};
use crate::function::Op;

verus! {

/// An evaluation-time failure.
#[derive(Debug, PartialEq)]
pub enum EvaluationError {
    Parser(ParserError),
    EmptyStack,
    DivisionByZero,
    FunctionNotApplicable,
    UndefinedVariable(String),
    InvalidStackElements,
    CircularVariableReference,
    NotAString,
    NotACharacter,
    IO(String),
    StepLimit,
}

/// The model of an evaluation-time failure; `StepLimit`, the cut-off of a
/// runaway evaluation, stands outside the model.
pub open spec fn ev_err(e: EvaluationError) -> Option<EErr> {
    match e {
        EvaluationError::Parser(p) => Some(EErr::Parser(crate::parser::perr_v(p))),
        EvaluationError::EmptyStack => Some(EErr::EmptyStack),
        EvaluationError::DivisionByZero => Some(EErr::DivisionByZero),
        EvaluationError::FunctionNotApplicable => Some(EErr::FunctionNotApplicable),
        EvaluationError::UndefinedVariable(n) => Some(EErr::UndefinedVariable(n@)),
        EvaluationError::InvalidStackElements => Some(EErr::InvalidStackElements),
        EvaluationError::CircularVariableReference => Some(EErr::CircularVariableReference),
        EvaluationError::NotAString => Some(EErr::NotAString),
        EvaluationError::NotACharacter => Some(EErr::NotACharacter),
        EvaluationError::IO(m) => Some(EErr::IO(m@)),
        EvaluationError::StepLimit => None,
    }
}

/// One recorded, reversible stack action.
enum UndoEntry {
    /// Something was pushed; undone by popping.
    Push,
    /// This element was popped; undone by pushing it back.
    Pop(Element),
}

/// Model of one recorded stack action.
pub enum UndoV {
    Push,
    Pop(Val),
}

/// Model of a recorded action.
spec fn undo_entry_v(e: UndoEntry) -> UndoV {
    match e {
        UndoEntry::Push => UndoV::Push,
        UndoEntry::Pop(el) => UndoV::Pop(el.val()),
    }
}

/// Model of an undo log, oldest action first.
spec fn log_vs(l: Seq<UndoEntry>) -> Seq<UndoV>
    decreases l.len(),
{
    if l.len() == 0 {
        Seq::empty()
    } else {
        log_vs(l.drop_last()).push(undo_entry_v(l.last()))
    }
}

/// The stack that replaying a log backwards over `stack` restores.
pub open spec fn unwind(stack: Seq<Val>, log: Seq<UndoV>) -> Seq<Val>
    decreases log.len(),
{
    if log.len() == 0 {
        stack
    } else {
        match log.last() {
            UndoV::Push => unwind(stack.drop_last(), log.drop_last()),
            UndoV::Pop(v) => unwind(stack.push(v), log.drop_last()),
        }
    }
}

/// Whether replaying the log backwards never pops an empty stack.
pub open spec fn unwind_ok(stack: Seq<Val>, log: Seq<UndoV>) -> bool
    decreases log.len(),
{
    if log.len() == 0 {
        true
    } else {
        match log.last() {
            UndoV::Push => stack.len() > 0 && unwind_ok(stack.drop_last(), log.drop_last()),
            UndoV::Pop(v) => unwind_ok(stack.push(v), log.drop_last()),
        }
    }
}

/// The environment owning the operand stack and the variable bindings.
///
/// Every `evaluate` call records, in an undo log cleared at the start of the
/// call, one entry per stack push and one entry per stack pop performed
/// during the call; if execution fails, the log is replayed in reverse,
/// fully restoring the stack to its state before the call.
pub struct Environment {
    stack: Vec<Element>,
    variables: Vec<(String, Element)>,
    evaluation_history: Vec<UndoEntry>,
}

/// Model of the variable table: a later binding of a name shadows an
/// earlier one.
spec fn assoc_v(l: Seq<(String, Element)>) -> Map<Seq<char>, Val>
    decreases l.len(),
{
    if l.len() == 0 {
        Map::empty()
    } else {
        assoc_v(l.drop_last()).insert(l.last().0@, l.last().1.val())
    }
}

/// Whatever holds of the replayed stack before a change still holds after
/// it: the change is fully covered by new log entries.
pub open spec fn undo_kept(pre: Environment, post: Environment) -> bool {
    unwind_ok(pre.stack_v(), pre.log_v()) ==> (unwind_ok(post.stack_v(), post.log_v()) && unwind(
        post.stack_v(),
        post.log_v(),
    ) == unwind(pre.stack_v(), pre.log_v()))
}

/// What executing the program `prog` from the state `(s0, v0)` with the
/// file outcomes `files` may yield, related to the post-state `post` and
/// the result `r` — without rollback:
/// - on success, some number of steps of [`run`] reaches `Done` exactly at
///   the post-state;
/// - on the step-budget cut-off, the run is still going after the whole
///   budget, in the post-state;
/// - on any other failure, some number of steps reaches `Failed` with
///   exactly this error, and the variable table stands as at the failure.
pub open spec fn run_outcome(
    s0: Seq<Val>,
    v0: Map<Seq<char>, Val>,
    prog: Seq<Val>,
    files: Seq<FOut>,
    post: Environment,
    r: Result<(), EvaluationError>,
) -> bool {
    let c0 = Cfg { stack: s0, vars: v0, work: prog };
    match r {
        Ok(_) => exists|n: nat|
            #[trigger] run(c0, files, n) == RunRes::Done(
                Cfg { stack: post.stack_v(), vars: post.vars_v(), work: seq![] },
            ),
        Err(e) => if e == EvaluationError::StepLimit {
            exists|w: Seq<Val>, f: Seq<FOut>|
                #[trigger] run(c0, files, STEP_BUDGET as nat) == RunRes::Going(
                    Cfg { stack: post.stack_v(), vars: post.vars_v(), work: w },
                    f,
                )
        } else {
            ev_err(e) is Some && exists|n: nat|
                #[trigger] run(c0, files, n) == RunRes::Failed(post.vars_v(), ev_err(e)->0)
        },
    }
}

/// What one `evaluate` call yields: a parse error leaves everything
/// untouched; otherwise the parsed elements are run as in [`run_outcome`],
/// except that after any failure the operand stack is rolled back to
/// exactly its state before the call, while variable bindings made before
/// the failure remain.
pub open spec fn eval_outcome(
    s0: Seq<Val>,
    v0: Map<Seq<char>, Val>,
    text: Seq<char>,
    files: Seq<FOut>,
    post: Environment,
    r: Result<(), EvaluationError>,
) -> bool {
    match parse_spec(text) {
        Err(pe) => r is Err && ev_err(r->Err_0) == Some(EErr::Parser(pe)) && post.stack_v() == s0
            && post.vars_v() == v0,
        Ok(prog) => {
            let c0 = Cfg { stack: s0, vars: v0, work: prog };
            match r {
                Ok(_) => exists|n: nat|
                    #[trigger] run(c0, files, n) == RunRes::Done(
                        Cfg { stack: post.stack_v(), vars: post.vars_v(), work: seq![] },
                    ),
                Err(e) => post.stack_v() == s0 && if e == EvaluationError::StepLimit {
                    exists|sw: Seq<Val>, w: Seq<Val>, f: Seq<FOut>|
                        #[trigger] run(c0, files, STEP_BUDGET as nat) == RunRes::Going(
                            Cfg { stack: sw, vars: post.vars_v(), work: w },
                            f,
                        )
                } else {
                    ev_err(e) is Some && exists|n: nat|
                        #[trigger] run(c0, files, n) == RunRes::Failed(
                            post.vars_v(),
                            ev_err(e)->0,
                        )
                },
            }
        },
    }
}

impl Environment {
    /// The model of the operand stack, bottom first.
    pub closed spec fn stack_v(&self) -> Seq<Val> {
        deep_seq(self.stack@)
    }

    /// The model of the variable table.
    pub closed spec fn vars_v(&self) -> Map<Seq<char>, Val> {
        assoc_v(self.variables@)
    }

    /// The model of the undo log, oldest action first.
    pub closed spec fn log_v(&self) -> Seq<UndoV> {
        log_vs(self.evaluation_history@)
    }

    /// A fresh environment: empty stack, no bindings, empty undo log.
    pub fn new() -> (r: Environment)
        ensures
            r.stack_v() == Seq::<Val>::empty(),
            r.vars_v() == Map::<Seq<char>, Val>::empty(),
            r.log_v() == Seq::<UndoV>::empty(),
    {
        Environment { stack: Vec::new(), variables: Vec::new(), evaluation_history: Vec::new() }
    }

    /// The number of elements on the operand stack.
    pub fn stack_len(&self) -> (r: usize)
        ensures
            r == self.stack_v().len(),
    {
        proof {
            lemma_deep_seq(self.stack@);
        }
        self.stack.len()
    }

    /// A read-only view of the operand stack, bottom first.
    pub fn stack(&self) -> (r: &Vec<Element>)
        ensures
            deep_seq(r@) == self.stack_v(),
    {
        &self.stack
    }

    /// Pushes one element onto the stack, recording the action.
    pub(crate) fn push_raw(&mut self, e: Element)
        ensures
            final(self).stack_v() == old(self).stack_v().push(e.val()),
            final(self).vars_v() == old(self).vars_v(),
            final(self).log_v() == old(self).log_v().push(UndoV::Push),
            undo_kept(*old(self), *final(self)),
    {
        self.evaluation_history.push(UndoEntry::Push);
        self.stack.push(e);
        proof {
            assert(self.stack@.drop_last() =~= old(self).stack@);
            assert(self.evaluation_history@.drop_last() =~= old(self).evaluation_history@);
            assert(self.stack_v() == old(self).stack_v().push(e.val()));
            assert(self.log_v() == old(self).log_v().push(UndoV::Push));
            assert(self.stack_v().drop_last() =~= old(self).stack_v());
            assert(self.log_v().last() == UndoV::Push);
            assert(self.log_v().drop_last() =~= old(self).log_v());
            assert(unwind(self.stack_v(), self.log_v()) == unwind(
                old(self).stack_v(),
                old(self).log_v(),
            ));
            assert(unwind_ok(old(self).stack_v(), old(self).log_v()) ==> unwind_ok(
                self.stack_v(),
                self.log_v(),
            ));
        }
    }

    /// Pops the raw top of the stack, recording the action; the element is
    /// not resolved. Fails on an empty stack.
    pub fn pop(&mut self) -> (r: Result<Element, EvaluationError>)
        ensures
            final(self).vars_v() == old(self).vars_v(),
            undo_kept(*old(self), *final(self)),
            match popr(old(self).stack_v()) {
                Ok((v, s1)) => r is Ok && r->Ok_0.val() == v && final(self).stack_v() == s1
                    && final(self).log_v() == old(self).log_v().push(UndoV::Pop(v)),
                Err(e) => r is Err && ev_err(r->Err_0) == Some(e) && *final(self) == *old(self),
            },
    {
        proof {
            lemma_deep_seq(self.stack@);
        }
        if self.stack.len() == 0 {
            return Err(EvaluationError::EmptyStack);
        }
        let top = self.stack.pop().unwrap();
        let copy = dup_element(&top);
        self.evaluation_history.push(UndoEntry::Pop(copy));
        proof {
            assert(old(self).stack@.drop_last() =~= self.stack@);
            assert(old(self).stack_v().drop_last() =~= self.stack_v()) by {
                lemma_deep_seq_auto();
            }
            assert(self.evaluation_history@.drop_last() =~= old(self).evaluation_history@);
            assert(self.log_v() == old(self).log_v().push(UndoV::Pop(top.val())));
            assert(self.stack_v().push(top.val()) =~= old(self).stack_v()) by {
                lemma_deep_seq_auto();
            }
            assert(self.log_v().last() == UndoV::Pop(top.val()));
            assert(self.log_v().drop_last() =~= old(self).log_v());
            assert(unwind(self.stack_v(), self.log_v()) == unwind(
                self.stack_v().push(top.val()),
                old(self).log_v(),
            ));
            assert(unwind_ok(old(self).stack_v(), old(self).log_v()) ==> unwind_ok(
                self.stack_v(),
                self.log_v(),
            ));
        }
        Ok(top)
    }

    /// Binds a name to a value, shadowing any earlier binding.
    pub(crate) fn assign_var(&mut self, name: String, value: Element)
        ensures
            final(self).vars_v() == old(self).vars_v().insert(name@, value.val()),
            final(self).stack_v() == old(self).stack_v(),
            final(self).log_v() == old(self).log_v(),
            undo_kept(*old(self), *final(self)),
    {
        let ghost nv = name@;
        let ghost vv = value.val();
        self.variables.push((name, value));
        proof {
            assert(self.variables@.drop_last() =~= old(self).variables@);
            assert(self.vars_v() == old(self).vars_v().insert(nv, vv));
        }
    }

    /// Clears the undo log; the stack and the bindings stay.
    pub(crate) fn clear_history(&mut self)
        ensures
            final(self).stack_v() == old(self).stack_v(),
            final(self).vars_v() == old(self).vars_v(),
            final(self).log_v() == Seq::<UndoV>::empty(),
    {
        self.evaluation_history.clear();
    }

    /// Pops the top of the stack and resolves it: a variable is looked up
    /// and resolved again until a terminal value is reached, and the
    /// children of an array are resolved recursively.
    pub fn pop_value(&mut self) -> (r: Result<Element, EvaluationError>)
        ensures
            final(self).vars_v() == old(self).vars_v(),
            undo_kept(*old(self), *final(self)),
            match popv(old(self).stack_v(), old(self).vars_v()) {
                Ok((v, s1)) => r is Ok && r->Ok_0.val() == v && final(self).stack_v() == s1,
                Err(e) => r is Err && ev_err(r->Err_0) == Some(e),
            },
    {
        let top = match self.pop() {
            Err(e) => {
                return Err(e);
            },
            Ok(el) => el,
        };
        match resolve_elem(&self.variables, &top, RESOLVE_LIMIT) {
            Err(e) => Err(e),
            Ok(resolved) => Ok(resolved),
        }
    }

    /// Executes a worklist (held next-element-last) until it is exhausted,
    /// an operation fails, or the step budget runs out. Does not roll back.
    pub(crate) fn run_work(&mut self, work: Vec<Element>, Ghost(prog): Ghost<Seq<Val>>) -> (r:
        Result<(), EvaluationError>)
        requires
            prog == rev_deep(work@),
        ensures
            undo_kept(*old(self), *final(self)),
            run_outcome(
                old(self).stack_v(),
                old(self).vars_v(),
                prog,
                Seq::<FOut>::empty(),
                *final(self),
                r,
            ),
    {
        let mut wk = work;
        let mut fuel: u64 = STEP_BUDGET;
        let ghost mut i: nat = 0;
        proof {
            assert(run(
                Cfg { stack: old(self).stack_v(), vars: old(self).vars_v(), work: prog },
                Seq::<FOut>::empty(),
                0,
            ) == RunRes::Going(
                Cfg { stack: self.stack_v(), vars: self.vars_v(), work: rev_deep(wk@) },
                Seq::<FOut>::empty(),
            ));
        }
        while wk.len() > 0
            invariant
                fuel == STEP_BUDGET - i,
                i <= STEP_BUDGET,
                undo_kept(*old(self), *self),
                run(
                    Cfg { stack: old(self).stack_v(), vars: old(self).vars_v(), work: prog },
                    Seq::<FOut>::empty(),
                    i,
                ) == RunRes::Going(
                    Cfg { stack: self.stack_v(), vars: self.vars_v(), work: rev_deep(wk@) },
                    Seq::<FOut>::empty(),
                ),
            decreases fuel,
        {
            let ghost c0 = Cfg {
                stack: old(self).stack_v(),
                vars: old(self).vars_v(),
                work: prog,
            };
            let ghost cur = Cfg {
                stack: self.stack_v(),
                vars: self.vars_v(),
                work: rev_deep(wk@),
            };
            let ghost nofiles = Seq::<FOut>::empty();
            if fuel == 0 {
                return Err(EvaluationError::StepLimit);
            }
            let e = wk.pop().unwrap();
            let ghost wk0 = wk@;
            proof {
                assert(cur.work == seq![e.val()] + rev_deep(wk@));
                assert(cur.work[0] == e.val());
                assert(cur.work.drop_first() =~= rev_deep(wk@));
            }
            match e {
                Element::Function(f) => {
                    if f.op == Op::Read {
                        let popped = self.pop_value();
                        match popped {
                            Err(e2) => {
                                proof {
                                    assert(one_step(cur, nofiles) == StepRes::Fail(
                                        self.vars_v(),
                                        ev_err(e2)->0,
                                    ));
                                    lemma_run_extend(c0, nofiles, i, cur, nofiles);
                                }
                                return Err(e2);
                            },
                            Ok(el) => {
                                match el {
                                    Element::Array(items) => {
                                        match string_chars(&items) {
                                            Some(_cs) => {
                                                let msg = no_source_string();
                                                proof {
                                                    assert(one_step(cur, nofiles)
                                                        == StepRes::Fail(
                                                        self.vars_v(),
                                                        EErr::IO(no_source_msg()),
                                                    ));
                                                    lemma_run_extend(c0, nofiles, i, cur, nofiles);
                                                }
                                                return Err(EvaluationError::IO(msg));
                                            },
                                            None => {
                                                proof {
                                                    assert(one_step(cur, nofiles)
                                                        == StepRes::Fail(
                                                        self.vars_v(),
                                                        EErr::NotAString,
                                                    ));
                                                    lemma_run_extend(c0, nofiles, i, cur, nofiles);
                                                }
                                                return Err(EvaluationError::NotAString);
                                            },
                                        }
                                    },
                                    _ => {
                                        proof {
                                            assert(chars_of(el.val()) is None);
                                            assert(one_step(cur, nofiles) == StepRes::Fail(
                                                self.vars_v(),
                                                EErr::NotAString,
                                            ));
                                            lemma_run_extend(c0, nofiles, i, cur, nofiles);
                                        }
                                        return Err(EvaluationError::NotAString);
                                    },
                                }
                            },
                        }
                    } else {
                        match crate::builtins::apply(self, f.op) {
                            Err(e2) => {
                                proof {
                                    assert(one_step(cur, nofiles) == StepRes::Fail(
                                        self.vars_v(),
                                        ev_err(e2)->0,
                                    ));
                                    lemma_run_extend(c0, nofiles, i, cur, nofiles);
                                }
                                return Err(e2);
                            },
                            Ok(pre_list) => {
                                let ghost prem = deep_seq(pre_list@);
                                push_rev(&mut wk, pre_list);
                                proof {
                                    assert(rev_deep(wk@) == prem + rev_deep(wk0));
                                    assert(one_step(cur, nofiles) == StepRes::Go(
                                        Cfg {
                                            stack: self.stack_v(),
                                            vars: self.vars_v(),
                                            work: rev_deep(wk@),
                                        },
                                        nofiles,
                                    ));
                                    lemma_run_extend(c0, nofiles, i, cur, nofiles);
                                    i = i + 1;
                                }
                            },
                        }
                    }
                },
                other => {
                    proof {
                        assert(!(cur.work[0] is Func));
                    }
                    self.push_raw(other);
                    proof {
                        assert(one_step(cur, nofiles) == StepRes::Go(
                            Cfg {
                                stack: self.stack_v(),
                                vars: self.vars_v(),
                                work: rev_deep(wk@),
                            },
                            nofiles,
                        ));
                        lemma_run_extend(c0, nofiles, i, cur, nofiles);
                        i = i + 1;
                    }
                },
            }
            fuel = fuel - 1;
        }
        proof {
            let c0 = Cfg { stack: old(self).stack_v(), vars: old(self).vars_v(), work: prog };
            let cur = Cfg { stack: self.stack_v(), vars: self.vars_v(), work: rev_deep(wk@) };
            let nofiles = Seq::<FOut>::empty();
            assert(rev_deep(wk@) =~= Seq::<Val>::empty());
            assert(one_step(cur, nofiles) == StepRes::Done(cur));
            lemma_run_extend(c0, nofiles, i, cur, nofiles);
            assert(run(c0, nofiles, i + 1) == RunRes::Done(
                Cfg { stack: self.stack_v(), vars: self.vars_v(), work: seq![] },
            ));
        }
        Ok(())
    }

    /// Evaluates a source text against the environment: parses it — a parse
    /// error aborts before any stack mutation — then executes the elements
    /// left to right, atomically: if execution fails at any point, the undo
    /// log is replayed and the stack is exactly as it was before the call.
    /// A `read` operation fails with an I/O error here, where no file
    /// collaborator is attached; see `evaluate_with_files`.
    pub fn evaluate(&mut self, input: &str) -> (r: Result<(), EvaluationError>)
        ensures
            eval_outcome(
                old(self).stack_v(),
                old(self).vars_v(),
                input@,
                Seq::<FOut>::empty(),
                *final(self),
                r,
            ),
            final(self).log_v() == Seq::<UndoV>::empty(),
    {
        self.clear_history();
        let elems = match crate::parser::parse(input) {
            Err(pe) => {
                return Err(EvaluationError::Parser(pe));
            },
            Ok(v) => v,
        };
        let ghost prog = deep_seq(elems@);
        let mut wk: Vec<Element> = Vec::new();
        push_rev(&mut wk, elems);
        proof {
            assert(rev_deep(wk@) =~= prog);
        }
        let ghost s0 = self.stack_v();
        match self.run_work(wk, Ghost(prog)) {
            Ok(()) => {
                self.clear_history();
                Ok(())
            },
            Err(e) => {
                proof {
                    assert(unwind_ok(s0, Seq::<UndoV>::empty()));
                    assert(unwind(s0, Seq::<UndoV>::empty()) == s0);
                }
                self.rollback();
                Err(e)
            },
        }
    }

    /// Executes one element as the evaluator would: a function element
    /// invokes its behavior with full access to the stack, any other
    /// element is pushed. Actions are recorded in the undo log but nothing
    /// is rolled back here.
    pub fn push(&mut self, element: Element) -> (r: Result<(), EvaluationError>)
        ensures
            undo_kept(*old(self), *final(self)),
            run_outcome(
                old(self).stack_v(),
                old(self).vars_v(),
                seq![element.val()],
                Seq::<FOut>::empty(),
                *final(self),
                r,
            ),
    {
        let ghost ev = element.val();
        let mut wk: Vec<Element> = Vec::new();
        wk.push(element);
        let ghost pv: Seq<Val> = seq![ev];
        proof {
            assert(wk@.len() == 1);
            assert(wk@.last() == element);
            assert(wk@.drop_last() =~= Seq::<Element>::empty());
            assert(rev_deep(wk@.drop_last()) == Seq::<Val>::empty());
            assert(rev_deep(wk@) == seq![element.val()] + rev_deep(wk@.drop_last()));
            assert(rev_deep(wk@) =~= pv);
        }
        self.run_work(wk, Ghost(pv))
    }

    /// Executes a worklist (held next-element-last) with a file
    /// collaborator answering `read` operations. Does not roll back.
    ///
    /// Nothing is assumed of the collaborator, so the contract quantifies
    /// over the sequence of file outcomes: some sequence accounts for the
    /// result.
    pub(crate) fn run_work_files<F: FileSource>(
        &mut self,
        work: Vec<Element>,
        Ghost(prog): Ghost<Seq<Val>>,
        files: &mut F,
    ) -> (r: (Result<(), EvaluationError>, Ghost<Seq<FOut>>))
        requires
            prog == rev_deep(work@),
        ensures
            undo_kept(*old(self), *final(self)),
            run_outcome(
                old(self).stack_v(),
                old(self).vars_v(),
                prog,
                r.1@,
                *final(self),
                r.0,
            ),
    {
        let mut wk = work;
        let mut fuel: u64 = STEP_BUDGET;
        let ghost mut i: nat = 0;
        let ghost mut used: Seq<FOut> = Seq::empty();
        let ghost c0 = Cfg { stack: old(self).stack_v(), vars: old(self).vars_v(), work: prog };
        proof {
            assert forall|fut: Seq<FOut>|
                #[trigger] run(
                    Cfg { stack: old(self).stack_v(), vars: old(self).vars_v(), work: prog },
                    used + fut,
                    i,
                ) == RunRes::Going(
                    Cfg { stack: self.stack_v(), vars: self.vars_v(), work: rev_deep(wk@) },
                    fut,
                ) by {
                assert(used + fut =~= fut);
            }
        }
        while wk.len() > 0
            invariant
                fuel == STEP_BUDGET - i,
                i <= STEP_BUDGET,
                undo_kept(*old(self), *self),
                forall|fut: Seq<FOut>|
                    #[trigger] run(
                        Cfg { stack: old(self).stack_v(), vars: old(self).vars_v(), work: prog },
                        used + fut,
                        i,
                    ) == RunRes::Going(
                        Cfg { stack: self.stack_v(), vars: self.vars_v(), work: rev_deep(wk@) },
                        fut,
                    ),
            decreases fuel,
        {
            let ghost c0 = Cfg {
                stack: old(self).stack_v(),
                vars: old(self).vars_v(),
                work: prog,
            };
            let ghost cur = Cfg {
                stack: self.stack_v(),
                vars: self.vars_v(),
                work: rev_deep(wk@),
            };
            let ghost none: Seq<FOut> = Seq::empty();
            if fuel == 0 {
                proof {
                    assert(run(c0, used + none, i) == RunRes::Going(cur, none));
                    assert(used + none =~= used);
                    assert(run(c0, used, STEP_BUDGET as nat) == RunRes::Going(cur, none));
                    assert(run_outcome(
                        old(self).stack_v(),
                        old(self).vars_v(),
                        prog,
                        used,
                        *self,
                        Err::<(), EvaluationError>(EvaluationError::StepLimit),
                    ));
                }
                return (Err(EvaluationError::StepLimit), Ghost(used));
            }
            let e = wk.pop().unwrap();
            let ghost wk0 = wk@;
            proof {
                assert(cur.work == seq![e.val()] + rev_deep(wk@));
                assert(cur.work[0] == e.val());
                assert(cur.work.drop_first() =~= rev_deep(wk@));
            }
            match e {
                Element::Function(f) => {
                    if f.op == Op::Read {
                        let popped = self.pop_value();
                        match popped {
                            Err(e2) => {
                                proof {
                                    assert(run(c0, used + none, i) == RunRes::Going(cur, none));
                                    assert(one_step(cur, none) == StepRes::Fail(
                                        self.vars_v(),
                                        ev_err(e2)->0,
                                    ));
                                    lemma_run_extend(c0, used + none, i, cur, none);
                                    assert(used + none =~= used);
                                    assert(run(c0, used, i + 1) == RunRes::Failed(
                                        self.vars_v(),
                                        ev_err(e2)->0,
                                    ));
                                    assert(run_outcome(
                                        old(self).stack_v(),
                                        old(self).vars_v(),
                                        prog,
                                        used,
                                        *self,
                                        Err::<(), EvaluationError>(e2),
                                    ));
                                }
                                return (Err(e2), Ghost(used));
                            },
                            Ok(el) => {
                                let name = match el {
                                    Element::Array(items) => {
                                        match string_chars(&items) {
                                            Some(cs) => cs,
                                            None => {
                                                proof {
                                                    assert(run(c0, used + none, i)
                                                        == RunRes::Going(cur, none));
                                                    assert(one_step(cur, none) == StepRes::Fail(
                                                        self.vars_v(),
                                                        EErr::NotAString,
                                                    ));
                                                    lemma_run_extend(c0, used + none, i, cur, none);
                                                    assert(used + none =~= used);
                                                    assert(run(c0, used, i + 1)
                                                        == RunRes::Failed(
                                                        self.vars_v(),
                                                        EErr::NotAString,
                                                    ));
                                                    assert(run_outcome(
                                                        old(self).stack_v(),
                                                        old(self).vars_v(),
                                                        prog,
                                                        used,
                                                        *self,
                                                        Err::<(), EvaluationError>(
                                                            EvaluationError::NotAString,
                                                        ),
                                                    ));
                                                }
                                                return (
                                                    Err(EvaluationError::NotAString),
                                                    Ghost(used),
                                                );
                                            },
                                        }
                                    },
                                    _ => {
                                        proof {
                                            assert(chars_of(el.val()) is None);
                                            assert(run(c0, used + none, i) == RunRes::Going(
                                                cur,
                                                none,
                                            ));
                                            assert(one_step(cur, none) == StepRes::Fail(
                                                self.vars_v(),
                                                EErr::NotAString,
                                            ));
                                            lemma_run_extend(c0, used + none, i, cur, none);
                                            assert(used + none =~= used);
                                            assert(run(c0, used, i + 1) == RunRes::Failed(
                                                self.vars_v(),
                                                EErr::NotAString,
                                            ));
                                            assert(run_outcome(
                                                old(self).stack_v(),
                                                old(self).vars_v(),
                                                prog,
                                                used,
                                                *self,
                                                Err::<(), EvaluationError>(
                                                    EvaluationError::NotAString,
                                                ),
                                            ));
                                        }
                                        return (Err(EvaluationError::NotAString), Ghost(used));
                                    },
                                };
                                match files.read_file(&name) {
                                    Err(msg) => {
                                        let ghost fut0: Seq<FOut> = seq![Err(msg@)];
                                        proof {
                                            assert(run(c0, used + fut0, i) == RunRes::Going(
                                                cur,
                                                fut0,
                                            ));
                                            assert(one_step(cur, fut0) == StepRes::Fail(
                                                self.vars_v(),
                                                EErr::IO(msg@),
                                            ));
                                            lemma_run_extend(c0, used + fut0, i, cur, fut0);
                                            assert(run(c0, used + fut0, i + 1) == RunRes::Failed(
                                                self.vars_v(),
                                                EErr::IO(msg@),
                                            ));
                                            assert(run_outcome(
                                                old(self).stack_v(),
                                                old(self).vars_v(),
                                                prog,
                                                used + fut0,
                                                *self,
                                                Err::<(), EvaluationError>(EvaluationError::IO(
                                                    msg,
                                                )),
                                            ));
                                        }
                                        return (
                                            Err(EvaluationError::IO(msg)),
                                            Ghost(used + fut0),
                                        );
                                    },
                                    Ok(text) => {
                                        match crate::parser::parse(text.as_str()) {
                                            Err(pe) => {
                                                let ghost fut0: Seq<FOut> = seq![Ok(text@)];
                                                proof {
                                                    assert(run(c0, used + fut0, i)
                                                        == RunRes::Going(cur, fut0));
                                                    assert(one_step(cur, fut0) == StepRes::Fail(
                                                        self.vars_v(),
                                                        EErr::Parser(crate::parser::perr_v(pe)),
                                                    ));
                                                    lemma_run_extend(c0, used + fut0, i, cur, fut0);
                                                    assert(run(c0, used + fut0, i + 1)
                                                        == RunRes::Failed(
                                                        self.vars_v(),
                                                        EErr::Parser(crate::parser::perr_v(pe)),
                                                    ));
                                                    assert(run_outcome(
                                                        old(self).stack_v(),
                                                        old(self).vars_v(),
                                                        prog,
                                                        used + fut0,
                                                        *self,
                                                        Err::<(), EvaluationError>(
                                                            EvaluationError::Parser(pe),
                                                        ),
                                                    ));
                                                }
                                                return (
                                                    Err(EvaluationError::Parser(pe)),
                                                    Ghost(used + fut0),
                                                );
                                            },
                                            Ok(elems) => {
                                                let ghost resp: FOut = Ok(text@);
                                                let ghost prem = deep_seq(elems@);
                                                push_rev(&mut wk, elems);
                                                proof {
                                                    assert(rev_deep(wk@) == prem + rev_deep(wk0));
                                                    let next = Cfg {
                                                        stack: self.stack_v(),
                                                        vars: self.vars_v(),
                                                        work: rev_deep(wk@),
                                                    };
                                                    let used1 = used.push(resp);
                                                    assert forall|fut: Seq<FOut>|
                                                        #[trigger] run(c0, used1 + fut, i + 1)
                                                            == RunRes::Going(next, fut) by {
                                                        let big = seq![resp] + fut;
                                                        assert(used1 + fut =~= used + big);
                                                        assert(run(c0, used + big, i)
                                                            == RunRes::Going(cur, big));
                                                        assert(big[0] == resp);
                                                        assert(big.drop_first() =~= fut);
                                                        assert(one_step(cur, big) == StepRes::Go(
                                                            next,
                                                            fut,
                                                        ));
                                                        lemma_run_extend(c0, used + big, i, cur, big);
                                                    }
                                                    used = used1;
                                                    i = i + 1;
                                                }
                                            },
                                        }
                                    },
                                }
                            },
                        }
                    } else {
                        match crate::builtins::apply(self, f.op) {
                            Err(e2) => {
                                proof {
                                    assert(run(c0, used + none, i) == RunRes::Going(cur, none));
                                    assert(one_step(cur, none) == StepRes::Fail(
                                        self.vars_v(),
                                        ev_err(e2)->0,
                                    ));
                                    lemma_run_extend(c0, used + none, i, cur, none);
                                    assert(used + none =~= used);
                                    assert(run(c0, used, i + 1) == RunRes::Failed(
                                        self.vars_v(),
                                        ev_err(e2)->0,
                                    ));
                                    assert(run_outcome(
                                        old(self).stack_v(),
                                        old(self).vars_v(),
                                        prog,
                                        used,
                                        *self,
                                        Err::<(), EvaluationError>(e2),
                                    ));
                                }
                                return (Err(e2), Ghost(used));
                            },
                            Ok(pre_list) => {
                                let ghost prem = deep_seq(pre_list@);
                                push_rev(&mut wk, pre_list);
                                proof {
                                    assert(rev_deep(wk@) == prem + rev_deep(wk0));
                                    let next = Cfg {
                                        stack: self.stack_v(),
                                        vars: self.vars_v(),
                                        work: rev_deep(wk@),
                                    };
                                    assert forall|fut: Seq<FOut>|
                                        #[trigger] run(c0, used + fut, i + 1) == RunRes::Going(
                                            next,
                                            fut,
                                        ) by {
                                        assert(run(c0, used + fut, i) == RunRes::Going(cur, fut));
                                        assert(one_step(cur, fut) == StepRes::Go(next, fut));
                                        lemma_run_extend(c0, used + fut, i, cur, fut);
                                    }
                                    i = i + 1;
                                }
                            },
                        }
                    }
                },
                other => {
                    proof {
                        assert(!(cur.work[0] is Func));
                    }
                    self.push_raw(other);
                    proof {
                        let next = Cfg {
                            stack: self.stack_v(),
                            vars: self.vars_v(),
                            work: rev_deep(wk@),
                        };
                        assert forall|fut: Seq<FOut>|
                            #[trigger] run(c0, used + fut, i + 1) == RunRes::Going(next, fut) by {
                            assert(run(c0, used + fut, i) == RunRes::Going(cur, fut));
                            assert(one_step(cur, fut) == StepRes::Go(next, fut));
                            lemma_run_extend(c0, used + fut, i, cur, fut);
                        }
                        i = i + 1;
                    }
                },
            }
            fuel = fuel - 1;
        }
        proof {
            let c0 = Cfg { stack: old(self).stack_v(), vars: old(self).vars_v(), work: prog };
            let cur = Cfg { stack: self.stack_v(), vars: self.vars_v(), work: rev_deep(wk@) };
            let none: Seq<FOut> = Seq::empty();
            assert(run(c0, used + none, i) == RunRes::Going(cur, none));
            assert(used + none =~= used);
            assert(rev_deep(wk@) =~= Seq::<Val>::empty());
            assert(one_step(cur, none) == StepRes::Done(cur));
            lemma_run_extend(c0, used, i, cur, none);
            assert(run(c0, used, i + 1) == RunRes::Done(
                Cfg { stack: self.stack_v(), vars: self.vars_v(), work: seq![] },
            ));
            assert(run_outcome(
                old(self).stack_v(),
                old(self).vars_v(),
                prog,
                used,
                *self,
                Ok::<(), EvaluationError>(()),
            ));
        }
        (Ok(()), Ghost(used))
    }

    /// Evaluates a source text with a file collaborator answering the
    /// `read` operations: as [`Environment::evaluate`], but `read` resolves
    /// its file name, asks the collaborator for the text, and evaluates
    /// that text in place. Atomicity is unchanged: any failure rolls the
    /// stack back to its state before the call.
    pub fn evaluate_with_files<F: FileSource>(&mut self, input: &str, files: &mut F) -> (r: Result<
        (),
        EvaluationError,
    >)
        ensures
            exists|fs: Seq<FOut>|
                #[trigger] eval_outcome(
                    old(self).stack_v(),
                    old(self).vars_v(),
                    input@,
                    fs,
                    *final(self),
                    r,
                ),
            final(self).log_v() == Seq::<UndoV>::empty(),
    {
        self.clear_history();
        let elems = match crate::parser::parse(input) {
            Err(pe) => {
                proof {
                    let fs: Seq<FOut> = Seq::empty();
                    assert(eval_outcome(
                        old(self).stack_v(),
                        old(self).vars_v(),
                        input@,
                        fs,
                        *self,
                        Err::<(), EvaluationError>(EvaluationError::Parser(pe)),
                    ));
                }
                return Err(EvaluationError::Parser(pe));
            },
            Ok(v) => v,
        };
        let ghost prog = deep_seq(elems@);
        let mut wk: Vec<Element> = Vec::new();
        push_rev(&mut wk, elems);
        proof {
            assert(rev_deep(wk@) =~= prog);
        }
        let ghost s0 = self.stack_v();
        let ghost v0 = self.vars_v();
        let (res, Ghost(fs)) = self.run_work_files(wk, Ghost(prog), files);
        match res {
            Ok(()) => {
                let ghost mid = *self;
                self.clear_history();
                proof {
                    assert(run_outcome(s0, v0, prog, fs, mid, Ok::<(), EvaluationError>(())));
                    assert(eval_outcome(
                        old(self).stack_v(),
                        old(self).vars_v(),
                        input@,
                        fs,
                        *self,
                        Ok::<(), EvaluationError>(()),
                    ));
                }
                Ok(())
            },
            Err(e) => {
                let ghost mid = *self;
                proof {
                    assert(unwind_ok(s0, Seq::<UndoV>::empty()));
                    assert(unwind(s0, Seq::<UndoV>::empty()) == s0);
                }
                self.rollback();
                proof {
                    assert(run_outcome(s0, v0, prog, fs, mid, Err::<(), EvaluationError>(e)));
                    assert(eval_outcome(
                        old(self).stack_v(),
                        old(self).vars_v(),
                        input@,
                        fs,
                        *self,
                        Err::<(), EvaluationError>(e),
                    ));
                }
                Err(e)
            },
        }
    }

    /// Replays the undo log in reverse: each recorded push is undone by a
    /// pop, each recorded pop by pushing the recorded element back. The
    /// stack is exactly what it was when the log was last cleared.
    pub(crate) fn rollback(&mut self)
        requires
            unwind_ok(old(self).stack_v(), old(self).log_v()),
        ensures
            final(self).stack_v() == unwind(old(self).stack_v(), old(self).log_v()),
            final(self).vars_v() == old(self).vars_v(),
            final(self).log_v() == Seq::<UndoV>::empty(),
    {
        let ghost target = unwind(old(self).stack_v(), old(self).log_v());
        let ghost vars0 = old(self).vars_v();
        while self.evaluation_history.len() > 0
            invariant
                unwind_ok(self.stack_v(), self.log_v()),
                unwind(self.stack_v(), self.log_v()) == target,
                self.vars_v() == vars0,
            decreases self.evaluation_history@.len(),
        {
            let ghost l0 = self.log_v();
            let ghost s0 = self.stack_v();
            proof {
                assert(self.evaluation_history@.len() > 0);
                assert(log_vs(self.evaluation_history@) == log_vs(
                    self.evaluation_history@.drop_last(),
                ).push(undo_entry_v(self.evaluation_history@.last())));
            }
            let entry = self.evaluation_history.pop().unwrap();
            proof {
                assert(self.log_v() == l0.drop_last());
                assert(undo_entry_v(entry) == l0.last());
            }
            match entry {
                UndoEntry::Push => {
                    proof {
                        lemma_deep_seq(self.stack@);
                        assert(s0.len() > 0);
                    }
                    let ghost st0 = self.stack@;
                    let _ = self.stack.pop().unwrap();
                    proof {
                        assert(st0.drop_last() =~= self.stack@);
                        assert(self.stack_v() =~= s0.drop_last()) by {
                            lemma_deep_seq_auto();
                        }
                    }
                },
                UndoEntry::Pop(el) => {
                    let ghost ev = el.val();
                    let ghost st0 = self.stack@;
                    self.stack.push(el);
                    proof {
                        assert(self.stack@.drop_last() =~= st0);
                        assert(self.stack_v() =~= s0.push(ev)) by {
                            lemma_deep_seq_auto();
                        }
                    }
                },
            }
        }
    }
}

/// The models of a worklist held next-element-last, in execution order:
/// the next element to execute comes first.
pub open spec fn rev_deep(w: Seq<Element>) -> Seq<Val>
    decreases w.len(),
{
    if w.len() == 0 {
        Seq::empty()
    } else {
        seq![w.last().val()] + rev_deep(w.drop_last())
    }
}

/// Moves the elements of `items` onto the end of `work`, last first, so
/// that in execution order the elements of `items` come first, in their
/// original order.
fn push_rev(work: &mut Vec<Element>, items: Vec<Element>) -> (nothing: ())
    ensures
        rev_deep(final(work)@) == deep_seq(items@) + rev_deep(old(work)@),
{
    let ghost target = deep_seq(items@) + rev_deep(work@);
    let mut items = items;
    while items.len() > 0
        invariant
            deep_seq(items@) + rev_deep(work@) == target,
        decreases items@.len(),
    {
        let ghost items0 = items@;
        let ghost w0 = work@;
        let x = items.pop().unwrap();
        let ghost xv = x.val();
        work.push(x);
        proof {
            assert(work@.drop_last() =~= w0);
            assert(rev_deep(work@) == seq![xv] + rev_deep(w0));
            assert(items0.drop_last() =~= items@);
            assert(deep_seq(items0) == deep_seq(items@).push(xv));
            assert(deep_seq(items@) + (seq![xv] + rev_deep(w0)) =~= deep_seq(items@).push(xv)
                + rev_deep(w0));
        }
    }
    proof {
        assert(deep_seq(items@) + rev_deep(work@) =~= rev_deep(work@));
    }
}

/// The characters of a string-shaped array: every child must be a
/// character.
fn string_chars(items: &Vec<Element>) -> (r: Option<Vec<char>>)
    ensures
        match r {
            Some(cs) => chars_of(Val::Arr(deep_seq(items@))) == Some(cs@),
            None => chars_of(Val::Arr(deep_seq(items@))) is None,
        },
{
    proof {
        lemma_deep_seq(items@);
    }
    let mut cs: Vec<char> = Vec::new();
    let mut i: usize = 0;
    while i < items.len()
        invariant
            0 <= i <= items@.len(),
            cs@.len() == i,
            forall|j: int| 0 <= j < i ==> #[trigger] items@[j].val() is Char,
            forall|j: int| 0 <= j < i ==> cs@[j] == items@[j].val()->Char_0,
        decreases items@.len() - i,
    {
        match &items[i] {
            Element::Char(c) => {
                cs.push(*c);
            },
            _ => {
                proof {
                    lemma_deep_seq(items@);
                    assert(deep_seq(items@)[i as int] == items@[i as int].val());
                    assert(!(deep_seq(items@)[i as int] is Char));
                }
                return None;
            },
        }
        i = i + 1;
    }
    proof {
        lemma_deep_seq(items@);
        let dv = deep_seq(items@);
        assert forall|j: int| 0 <= j < dv.len() implies #[trigger] dv[j] is Char by {
            assert(dv[j] == items@[j].val());
        }
        assert(chars_of(Val::Arr(dv)) == Some(Seq::new(dv.len(), |j: int| dv[j]->Char_0)));
        assert forall|j: int| 0 <= j < cs@.len() implies cs@[j] == Seq::new(
            dv.len(),
            |k: int| dv[k]->Char_0,
        )[j] by {
            assert(dv[j] == items@[j].val());
        }
        assert(cs@ =~= Seq::new(dv.len(), |j: int| dv[j]->Char_0));
    }
    Some(cs)
}

/// The message `read` reports when no file collaborator is present.
fn no_source_string() -> (r: String)
    ensures
        r@ == no_source_msg(),
{
    let s: &str = "no file source";
    s.to_owned()
}

/// A collaborator that can read a named file's full text, for the `read`
/// built-in. The evaluator assumes nothing of it: every outcome is covered
/// by the evaluation contract.
pub trait FileSource {
    /// Reads the named file's full text, or describes the failure.
    fn read_file(&mut self, name: &Vec<char>) -> Result<String, String>;
}

/// The value bound to a name, if any: the latest binding wins.
fn lookup_var<'a>(vars: &'a Vec<(String, Element)>, name: &String) -> (r: Option<&'a Element>)
    ensures
        match r {
            Some(e) => assoc_v(vars@).dom().contains(name@) && e.val() == assoc_v(vars@)[name@],
            None => !assoc_v(vars@).dom().contains(name@),
        },
{
    let ghost full = assoc_v(vars@);
    let mut i = vars.len();
    proof {
        assert(vars@.take(i as int) =~= vars@);
    }
    while i > 0
        invariant
            i <= vars@.len(),
            full == assoc_v(vars@),
            full.dom().contains(name@) == assoc_v(vars@.take(i as int)).dom().contains(name@),
            full.dom().contains(name@) ==> full[name@] == assoc_v(vars@.take(i as int))[name@],
        decreases i,
    {
        i = i - 1;
        let ghost t1 = vars@.take(i + 1);
        proof {
            assert(t1.drop_last() =~= vars@.take(i as int));
            assert(t1.last() == vars@[i as int]);
            assert(assoc_v(t1) == assoc_v(vars@.take(i as int)).insert(
                vars@[i as int].0@,
                vars@[i as int].1.val(),
            ));
        }
        if str_eq(name.as_str(), vars[i].0.as_str()) {
            return Some(&vars[i].1);
        }
    }
    proof {
        assert(vars@.take(0) =~= Seq::<(String, Element)>::empty());
    }
    None
}

/// Resolution of one element against the variable table, with fuel
/// bounding the length of an indirection chain.
fn resolve_elem(vars: &Vec<(String, Element)>, e: &Element, fuel: u64) -> (r: Result<
    Element,
    EvaluationError,
>)
    ensures
        match resolve_val(assoc_v(vars@), e.val(), fuel as nat) {
            Ok(v) => r is Ok && r->Ok_0.val() == v,
            Err(er) => r is Err && ev_err(r->Err_0) == Some(er),
        },
    decreases fuel, *e, 0int,
{
    match e {
        Element::Variable(n) => {
            if fuel == 0 {
                Err(EvaluationError::CircularVariableReference)
            } else {
                match lookup_var(vars, n) {
                    None => Err(EvaluationError::UndefinedVariable(n.as_str().to_owned())),
                    Some(bound) => resolve_elem(vars, bound, fuel - 1),
                }
            }
        },
        Element::Array(items) => {
            proof {
                lemma_deep_seq(items@);
                assert(deep_seq(items@).subrange(0, items@.len() as int) =~= deep_seq(items@));
            }
            match resolve_vec(vars, items, 0, fuel) {
                Err(er) => Err(er),
                Ok(resolved) => {
                    proof {
                        lemma_deep_seq(items@);
                    }
                    Ok(Element::Array(resolved))
                },
            }
        },
        _ => Ok(dup_element(e)),
    }
}

/// Resolution of the elements of `arr` from position `i` on, left to right.
fn resolve_vec(vars: &Vec<(String, Element)>, arr: &Vec<Element>, i: usize, fuel: u64) -> (r:
    Result<Vec<Element>, EvaluationError>)
    requires
        i <= arr@.len(),
    ensures
        match resolve_seq(
            assoc_v(vars@),
            deep_seq(arr@).subrange(i as int, arr@.len() as int),
            fuel as nat,
        ) {
            Ok(t) => r is Ok && deep_seq(r->Ok_0@) == t,
            Err(er) => r is Err && ev_err(r->Err_0) == Some(er),
        },
    decreases fuel, *arr, arr@.len() - i,
{
    let ghost suffix = deep_seq(arr@).subrange(i as int, arr@.len() as int);
    proof {
        lemma_deep_seq(arr@);
    }
    if i == arr.len() {
        let empty: Vec<Element> = Vec::new();
        proof {
            lemma_deep_seq(empty@);
            assert(suffix =~= Seq::<Val>::empty());
            assert(deep_seq(empty@) =~= Seq::<Val>::empty());
        }
        Ok(empty)
    } else {
        proof {
            assert(suffix.len() == arr@.len() - i);
            assert(suffix[0] == deep_seq(arr@)[i as int]);
            assert(deep_seq(arr@)[i as int] == arr@[i as int].val());
        }
        let h = match resolve_elem(vars, &arr[i], fuel) {
            Err(er) => {
                proof {
                    assert(suffix.len() > 0);
                    assert(resolve_val(assoc_v(vars@), suffix[0], fuel as nat) == resolve_val(
                        assoc_v(vars@),
                        arr@[i as int].val(),
                        fuel as nat,
                    ));
                }
                return Err(er);
            },
            Ok(h) => h,
        };
        proof {
            assert(resolve_val(assoc_v(vars@), suffix[0], fuel as nat) == resolve_val(
                assoc_v(vars@),
                arr@[i as int].val(),
                fuel as nat,
            ));
        }
        let mut t = match resolve_vec(vars, arr, i + 1, fuel) {
            Err(er) => {
                proof {
                    assert(suffix.drop_first() =~= deep_seq(arr@).subrange(
                        i as int + 1,
                        arr@.len() as int,
                    ));
                }
                return Err(er);
            },
            Ok(t) => t,
        };
        let ghost t_old = t@;
        let ghost tv = deep_seq(t@);
        let ghost hv = h.val();
        t.insert(0, h);
        proof {
            assert(suffix.drop_first() =~= deep_seq(arr@).subrange(
                i as int + 1,
                arr@.len() as int,
            ));
            lemma_deep_seq(t@);
            lemma_deep_seq(t_old);
            assert forall|k: int| 0 <= k < t@.len() implies deep_seq(t@)[k] == (seq![hv] + tv)[k]
                by {
                if k == 0 {
                    assert(t@[0].val() == hv);
                } else {
                    assert(t@[k] == t_old[k - 1]);
                    assert(tv[k - 1] == t_old[k - 1].val());
                }
            }
            assert(deep_seq(t@) =~= seq![hv] + tv);
        }
        Ok(t)
    }
}

} // verus!
