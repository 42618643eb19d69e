//! The bytecode virtual machine: a single-frame stack machine that
//! executes a flat instruction sequence against a constants array and a
//! locals (register) array.
//!
//! The machine's semantics is the spec function [`run_from`]; [`execute`]
//! is proved to return exactly its outcome.  The instruction pointer
//! starts at zero, advances by one per step, and the run halts when it
//! reaches the end of the code; there is no explicit halt instruction.

use vstd::prelude::*;
use crate::values::{Value, Val, addable, val_sum, val_views, val_wf, vals_wf, lemma_vals_wf_elem, lemma_vals_wf_push, lemma_vals_wf_drop_last, lemma_vals_wf_update, value_add, value_clone};

verus! {

/// One bytecode instruction.
#[derive(Clone, Copy, PartialEq, Eq, Structural, Debug)]
pub enum Instruction {
    /// Push a copy of the given constant onto the operand stack.
    LoadConst(usize),
    /// Push a copy of the given local onto the operand stack.
    LoadLocal(usize),
    /// Pop the top of the operand stack into the given local.
    StoreLocal(usize),
    /// Pop two operands and push their exact sum.
    Add,
}

/// A fatal execution error, carrying the index of the failing instruction.
#[derive(Clone, Copy, PartialEq, Eq, Structural, Debug)]
pub enum VmError {
    /// An operand was needed from an empty operand stack.
    StackUnderflow { ip: usize },
    /// The operands of an arithmetic instruction have incompatible shapes.
    IncompatibleOperands { ip: usize },
}

/// Every index embedded in the code is within the constants array and the
/// locals array.  Execution requires this of its input; an out-of-range
/// index is the caller's fault, not a run-time condition.
pub open spec fn code_wf(code: Seq<Instruction>, n_consts: nat, n_locals: nat) -> bool {
    forall|i: int|
        0 <= i < code.len() ==> match #[trigger] code[i] {
            Instruction::LoadConst(c) => c < n_consts,
            Instruction::LoadLocal(l) => l < n_locals,
            Instruction::StoreLocal(l) => l < n_locals,
            Instruction::Add => true,
        }
}

/// The result of running the machine to completion from some state.
#[verifier::ext_equal]
pub enum Outcome {
    /// The instruction pointer reached the end of the code.
    Done { stack: Seq<Val>, locals: Seq<Val> },
    /// Execution aborted; the carried state is the one at the failing
    /// instruction, untouched by it.
    Fail { error: VmError, stack: Seq<Val>, locals: Seq<Val> },
}

/// The machine semantics, one instruction per step.  A failing step never
/// mutates the state: the outcome of a failure carries the stack and
/// locals exactly as they stood when the failing instruction was reached.
pub open spec fn run_from(
    code: Seq<Instruction>,
    consts: Seq<Val>,
    ip: int,
    stack: Seq<Val>,
    locals: Seq<Val>,
) -> Outcome
    recommends
        code_wf(code, consts.len(), locals.len()),
        0 <= ip <= code.len(),
    decreases code.len() - ip,
{
    if ip < 0 || ip >= code.len() {
        Outcome::Done { stack, locals }
    } else {
        match code[ip] {
            Instruction::LoadConst(c) => if c < consts.len() {
                run_from(code, consts, ip + 1, stack.push(consts[c as int]), locals)
            } else {
                arbitrary()
            },
            Instruction::LoadLocal(l) => if l < locals.len() {
                run_from(code, consts, ip + 1, stack.push(locals[l as int]), locals)
            } else {
                arbitrary()
            },
            Instruction::StoreLocal(l) => if l >= locals.len() {
                arbitrary()
            } else if stack.len() == 0 {
                Outcome::Fail { error: VmError::StackUnderflow { ip: ip as usize }, stack, locals }
            } else {
                run_from(
                    code,
                    consts,
                    ip + 1,
                    stack.drop_last(),
                    locals.update(l as int, stack.last()),
                )
            },
            Instruction::Add => if stack.len() < 2 {
                Outcome::Fail { error: VmError::StackUnderflow { ip: ip as usize }, stack, locals }
            } else {
                let a = stack[stack.len() - 2];
                let b = stack.last();
                if addable(a, b) {
                    run_from(
                        code,
                        consts,
                        ip + 1,
                        stack.drop_last().drop_last().push(val_sum(a, b)),
                        locals,
                    )
                } else {
                    Outcome::Fail {
                        error: VmError::IncompatibleOperands { ip: ip as usize },
                        stack,
                        locals,
                    }
                }
            },
        }
    }
}

/// Run the machine over `code`, mutating `stack` and `locals` in place.
///
/// On success the final stack and locals are exactly those of the
/// semantics' `Done` outcome; on failure the error and the final state
/// are those of its `Fail` outcome, so a failing run never leaves the
/// state partially mutated past the failing instruction.
pub fn execute(
    code: &Vec<Instruction>,
    consts: &Vec<Value>,
    stack: &mut Vec<Value>,
    locals: &mut Vec<Value>,
) -> (r: Result<(), VmError>)
    requires
        code_wf(code@, consts@.len(), old(locals)@.len()),
        vals_wf(val_views(consts@)),
        vals_wf(val_views(old(stack)@)),
        vals_wf(val_views(old(locals)@)),
    ensures
        final(locals)@.len() == old(locals)@.len(),
        match r {
            Ok(()) => run_from(code@, val_views(consts@), 0, val_views(old(stack)@), val_views(old(locals)@))
                == (Outcome::Done { stack: val_views(final(stack)@), locals: val_views(final(locals)@) }),
            Err(e) => run_from(code@, val_views(consts@), 0, val_views(old(stack)@), val_views(old(locals)@))
                == (Outcome::Fail { error: e, stack: val_views(final(stack)@), locals: val_views(final(locals)@) }),
        },
{
    let ghost cvs = val_views(consts@);
    let ghost s0 = val_views(old(stack)@);
    let ghost l0 = val_views(old(locals)@);
    let n = code.len();
    let mut ip: usize = 0;
    while ip < n
        invariant
            n == code@.len(),
            0 <= ip <= n,
            code_wf(code@, consts@.len(), locals@.len()),
            locals@.len() == old(locals)@.len(),
            cvs == val_views(consts@),
            s0 == val_views(old(stack)@),
            l0 == val_views(old(locals)@),
            vals_wf(cvs),
            vals_wf(val_views(stack@)),
            vals_wf(val_views(locals@)),
            run_from(code@, cvs, 0, s0, l0) == run_from(
                code@,
                cvs,
                ip as int,
                val_views(stack@),
                val_views(locals@),
            ),
        decreases n - ip,
    {
        let ghost pre_stack = val_views(stack@);
        let ghost pre_locals = val_views(locals@);
        match code[ip] {
            Instruction::LoadConst(c) => {
                let v = value_clone(&consts[c]);
                stack.push(v);
                proof {
                    assert(val_views(stack@) =~= pre_stack.push(cvs[c as int]));
                    lemma_vals_wf_elem(cvs, c as int);
                    lemma_vals_wf_push(pre_stack, cvs[c as int]);
                }
            },
            Instruction::LoadLocal(l) => {
                let v = value_clone(&locals[l]);
                stack.push(v);
                proof {
                    assert(val_views(stack@) =~= pre_stack.push(pre_locals[l as int]));
                    lemma_vals_wf_elem(pre_locals, l as int);
                    lemma_vals_wf_push(pre_stack, pre_locals[l as int]);
                }
            },
            Instruction::StoreLocal(l) => {
                match stack.pop() {
                    Some(v) => {
                        locals[l] = v;
                        proof {
                            lemma_vals_wf_elem(pre_stack, pre_stack.len() - 1);
                            lemma_vals_wf_drop_last(pre_stack);
                            lemma_vals_wf_update(pre_locals, l as int, pre_stack.last());
                            assert(val_views(stack@) =~= pre_stack.drop_last());
                            assert(val_views(locals@) =~= pre_locals.update(
                                l as int,
                                pre_stack.last(),
                            ));
                        }
                    },
                    None => {
                        proof {
                            assert(val_views(stack@).len() == 0);
                            assert(run_from(code@, cvs, ip as int, val_views(stack@), val_views(locals@))
                                == (Outcome::Fail {
                                    error: VmError::StackUnderflow { ip },
                                    stack: val_views(stack@),
                                    locals: val_views(locals@),
                                }));
                        }
                        proof {
                            assert(run_from(code@, val_views(consts@), 0, val_views(old(stack)@), val_views(old(locals)@))
                                == (Outcome::Fail {
                                    error: VmError::StackUnderflow { ip },
                                    stack: val_views(stack@),
                                    locals: val_views(locals@),
                                }));
                        }
                        return Err(VmError::StackUnderflow { ip });
                    },
                }
            },
            Instruction::Add => {
                if stack.len() < 2 {
                    proof {
                        assert(val_views(stack@).len() < 2);
                        assert(run_from(code@, cvs, ip as int, val_views(stack@), val_views(locals@))
                            == (Outcome::Fail {
                                error: VmError::StackUnderflow { ip },
                                stack: val_views(stack@),
                                locals: val_views(locals@),
                            }));
                    }
                    proof {
                        assert(run_from(code@, val_views(consts@), 0, val_views(old(stack)@), val_views(old(locals)@))
                            == (Outcome::Fail {
                                error: VmError::StackUnderflow { ip },
                                stack: val_views(stack@),
                                locals: val_views(locals@),
                            }));
                    }
                    return Err(VmError::StackUnderflow { ip });
                }
                let top = stack.len() - 1;
                proof {
                    lemma_vals_wf_elem(pre_stack, top - 1);
                    lemma_vals_wf_elem(pre_stack, top as int);
                    assert(pre_stack[top - 1] == stack@[top - 1]@);
                    assert(pre_stack[top as int] == stack@[top as int]@);
                }
                match value_add(&stack[top - 1], &stack[top]) {
                    Some(v) => {
                        let _ = stack.pop();
                        let _ = stack.pop();
                        stack.push(v);
                        proof {
                            assert(val_views(stack@) =~= pre_stack.drop_last().drop_last().push(
                                val_sum(pre_stack[pre_stack.len() - 2], pre_stack.last()),
                            ));
                            lemma_vals_wf_drop_last(pre_stack);
                            lemma_vals_wf_drop_last(pre_stack.drop_last());
                            lemma_vals_wf_push(
                                pre_stack.drop_last().drop_last(),
                                val_sum(pre_stack[pre_stack.len() - 2], pre_stack.last()),
                            );
                        }
                    },
                    None => {
                        proof {
                            let vs = val_views(stack@);
                            assert(vs[vs.len() - 2] == stack@[stack@.len() - 2]@);
                            assert(vs.last() == stack@[stack@.len() - 1]@);
                            assert(!addable(vs[vs.len() - 2], vs.last()));
                            assert(run_from(code@, cvs, ip as int, vs, val_views(locals@))
                                == (Outcome::Fail {
                                    error: VmError::IncompatibleOperands { ip },
                                    stack: vs,
                                    locals: val_views(locals@),
                                }));
                        }
                        proof {
                            assert(run_from(code@, val_views(consts@), 0, val_views(old(stack)@), val_views(old(locals)@))
                                == (Outcome::Fail {
                                    error: VmError::IncompatibleOperands { ip },
                                    stack: val_views(stack@),
                                    locals: val_views(locals@),
                                }));
                        }
                        return Err(VmError::IncompatibleOperands { ip });
                    },
                }
            },
        }
        ip += 1;
    }
    Ok(())
}

} // verus!
