use vstd::prelude::*;
use crate::context::{ExpressionContext, first_slot};
use crate::evaluation::{
    code_of, codes_of, fits, is_zero_bits, lemma_fits_code, run, EvaluationError,
    Instruction,
};
use crate::expression::{Expression, Operator};

verus! {

/// What an evaluation needs next from its host, or how it ended.
#[derive(Debug, Clone, PartialEq)]
pub enum Request {
    /// The evaluation is over with this value.
    Finished(u64),
    /// The evaluation is over with this error.
    Failed(EvaluationError),
    /// A constant is next: resume with it.
    Load(u64),
    /// Resume with `left operator right`, computed in binary64 arithmetic.
    Compute { operator: Operator, left: u64, right: u64 },
    /// Resume with what the callable in `slot` gives for `arguments`.
    Invoke { slot: usize, arguments: Vec<u64> },
}

/// A running evaluation: the compiled code of an expression, how far it has
/// got, and the stack of operand encodings.
pub struct Evaluation {
    code: Vec<Instruction>,
    pc: usize,
    stack: Vec<u64>,
}

impl View for Evaluation {
    type V = (Seq<Instruction>, Seq<u64>);

    /// The code still to run, and the stack.
    closed spec fn view(&self) -> (Seq<Instruction>, Seq<u64>) {
        (self.code@.subrange(self.pc as int, self.code@.len() as int), self.stack@)
    }
}

/// `r` is what a machine in `state` asks of its host, with `names` registered.
pub open spec fn is_request(
    state: (Seq<Instruction>, Seq<u64>),
    names: Seq<Seq<char>>,
    r: Request,
) -> bool {
    let (code, stack) = state;
    let n = stack.len() as int;
    if code.len() == 0 {
        r == Request::Finished(stack.last())
    } else {
        match code[0] {
            Instruction::Push(b) => r == Request::Load(b),
            Instruction::Apply(op) => if op == Operator::Divide && is_zero_bits(stack[n - 1]) {
                r == Request::Failed(EvaluationError::DivisionByZero)
            } else {
                r == (Request::Compute { operator: op, left: stack[n - 2], right: stack[n - 1] })
            },
            Instruction::Invoke { name, arity } => if names.contains(name@) {
                r matches Request::Invoke { slot, arguments } && first_slot(
                    names,
                    name@,
                    slot as int,
                ) && arguments@ == stack.subrange(n - arity, n)
            } else {
                r == Request::Failed(EvaluationError::FunctionNotFound(name))
            },
        }
    }
}

/// The state after the next instruction, its operands replaced by `value`.
pub open spec fn resumed(state: (Seq<Instruction>, Seq<u64>), value: u64) -> (
    Seq<Instruction>,
    Seq<u64>,
) {
    let (code, stack) = state;
    let n = stack.len() as int;
    let rest = code.subrange(1, code.len() as int);
    match code[0] {
        Instruction::Push(_) => (rest, stack.push(value)),
        Instruction::Apply(_) => (rest, stack.subrange(0, n - 2).push(value)),
        Instruction::Invoke { arity, .. } => (rest, stack.subrange(0, n - arity).push(value)),
    }
}

impl Evaluation {
    /// The remaining code runs on the stack without running short.
    pub closed spec fn wf(&self) -> bool {
        &&& self.pc <= self.code@.len()
        &&& fits(self@.0, self@.1.len() as int)
    }

    /// A machine at the start of `expression`'s code.
    pub fn start(expression: &Expression) -> (r: Evaluation)
        ensures
            r.wf(),
            r@ == (code_of(*expression), Seq::<u64>::empty()),
    {
        let mut code: Vec<Instruction> = Vec::new();
        compile_into(expression, &mut code);
        let r = Evaluation { code, pc: 0, stack: Vec::new() };
        proof {
            assert(code@ =~= code_of(*expression));
            assert(r@.0 =~= code_of(*expression));
            let empty = Seq::<Instruction>::empty();
            assert(code_of(*expression) + empty =~= code_of(*expression));
            lemma_fits_code(*expression, empty, 0);
        }
        r
    }

    /// What the machine needs next, given the functions registered in `context`.
    pub fn next(&self, context: &ExpressionContext) -> (r: Request)
        requires
            self.wf(),
        ensures
            is_request(self@, context@, r),
    {
        let n = self.stack.len();
        if self.pc >= self.code.len() {
            return Request::Finished(self.stack[n - 1]);
        }
        proof {
            assert(self@.0[0] == self.code@[self.pc as int]);
            assert(self@.0.len() > 0);
        }
        match &self.code[self.pc] {
            Instruction::Push(b) => Request::Load(*b),
            Instruction::Apply(op) => {
                let left = self.stack[n - 2];
                let right = self.stack[n - 1];
                if *op == Operator::Divide && (right == 0 || right == 0x8000_0000_0000_0000u64) {
                    Request::Failed(EvaluationError::DivisionByZero)
                } else {
                    Request::Compute { operator: *op, left, right }
                }
            },
            Instruction::Invoke { name, arity } => match context.lookup(name) {
                None => Request::Failed(EvaluationError::FunctionNotFound(name.clone())),
                Some(slot) => {
                    let mut arguments: Vec<u64> = Vec::new();
                    let mut i: usize = n - *arity;
                    while i < n
                        invariant
                            n == self.stack@.len(),
                            *arity <= n,
                            n - *arity <= i <= n,
                            arguments@ == self.stack@.subrange(n - *arity, i as int),
                        decreases n - i,
                    {
                        arguments.push(self.stack[i]);
                        i = i + 1;
                        assert(arguments@ =~= self.stack@.subrange(n - *arity, i as int));
                    }
                    Request::Invoke { slot, arguments }
                },
            },
        }
    }

    /// Runs the next instruction, with `value` as its result.
    pub fn resume(&mut self, value: u64)
        requires
            old(self).wf(),
            old(self)@.0.len() > 0,
        ensures
            final(self).wf(),
            final(self)@ == resumed(old(self)@, value),
    {
        let ghost before = self@;
        proof {
            assert(before.0[0] == self.code@[self.pc as int]);
        }
        let pops: usize = match &self.code[self.pc] {
            Instruction::Push(_) => 0,
            Instruction::Apply(_) => 2,
            Instruction::Invoke { arity, .. } => *arity,
        };
        let mut k: usize = 0;
        while k < pops
            invariant
                k <= pops <= before.1.len(),
                self.stack@ == before.1.subrange(0, before.1.len() - k),
                self.code == old(self).code,
                self.pc == old(self).pc,
                self.pc < self.code.len(),
            decreases pops - k,
        {
            self.stack.pop();
            k = k + 1;
            assert(self.stack@ =~= before.1.subrange(0, before.1.len() - k));
        }
        self.stack.push(value);
        self.pc = self.pc + 1;
        proof {
            assert(self@.0 =~= before.0.subrange(1, before.0.len() as int));
        }
    }
}

/// Answering a request as the host's arithmetic and functions do keeps the
/// outcome of the remaining code: a machine that is resumed with those answers
/// until it finishes or fails ends with `run`'s value or error, and stays
/// well-formed on the way.
pub proof fn lemma_answer_keeps_outcome(
    state: (Seq<Instruction>, Seq<u64>),
    names: Seq<Seq<char>>,
    arith: spec_fn(Operator, u64, u64) -> u64,
    call: spec_fn(Seq<char>, Seq<u64>) -> u64,
    r: Request,
    value: u64,
)
    requires
        fits(state.0, state.1.len() as int),
        is_request(state, names, r),
    ensures
        r matches Request::Finished(v) ==> run(state.0, state.1, names, arith, call) == Ok::<
            u64,
            EvaluationError,
        >(v),
        r matches Request::Failed(x) ==> run(state.0, state.1, names, arith, call) == Err::<
            u64,
            EvaluationError,
        >(x),
        r matches Request::Load(b) ==> run(state.0, state.1, names, arith, call) == run(
            resumed(state, b).0,
            resumed(state, b).1,
            names,
            arith,
            call,
        ),
        r matches Request::Compute { operator, left, right } ==> run(
            state.0,
            state.1,
            names,
            arith,
            call,
        ) == run(
            resumed(state, arith(operator, left, right)).0,
            resumed(state, arith(operator, left, right)).1,
            names,
            arith,
            call,
        ),
        r matches Request::Invoke { slot, arguments } ==> run(
            state.0,
            state.1,
            names,
            arith,
            call,
        ) == run(
            resumed(state, call(names[slot as int], arguments@)).0,
            resumed(state, call(names[slot as int], arguments@)).1,
            names,
            arith,
            call,
        ),
        !(r is Finished) && !(r is Failed) ==> fits(
            resumed(state, value).0,
            resumed(state, value).1.len() as int,
        ),
{
    let (code, stack) = state;
    if code.len() > 0 {
        let n = stack.len() as int;
        match code[0] {
            Instruction::Push(_) => {},
            Instruction::Apply(_) => {
                assert(stack.subrange(0, n - 2).len() == n - 2);
            },
            Instruction::Invoke { arity, .. } => {
                assert(stack.subrange(0, n - arity).len() == n - arity);
            },
        }
    }
}

/// Appends the code of `e` to `code`.
fn compile_into(e: &Expression, code: &mut Vec<Instruction>)
    ensures
        final(code)@ == old(code)@ + code_of(*e),
    decreases e,
{
    match e {
        Expression::Constant(n) => {
            code.push(Instruction::Push(n.bits));
            assert(final(code)@ =~= old(code)@ + code_of(*e));
        },
        Expression::Binary { operator, left, right } => {
            compile_into(left, code);
            compile_into(right, code);
            code.push(Instruction::Apply(*operator));
            assert(final(code)@ =~= old(code)@ + code_of(*e));
        },
        Expression::Function { name, arguments } => {
            let ghost start = code@;
            let mut i: usize = 0;
            while i < arguments.len()
                invariant
                    i <= arguments@.len(),
                    code@ == start + codes_of(arguments@.subrange(0, i as int)),
                    *e == (Expression::Function { name: *name, arguments: *arguments }),
                decreases arguments@.len() - i,
            {
                proof {
                    broadcast use vstd::std_specs::vec::axiom_vec_index_decreases;
                    assert(decreases_to!(*e => e->arguments));
                    assert(decreases_to!(*arguments => arguments[i as int]));
                }
                compile_into(&arguments[i], code);
                let ghost next = arguments@.subrange(0, i + 1);
                assert(next.subrange(0, i as int) =~= arguments@.subrange(0, i as int));
                i = i + 1;
                assert(code@ =~= start + codes_of(arguments@.subrange(0, i as int)));
            }
            assert(arguments@.subrange(0, arguments@.len() as int) =~= arguments@);
            code.push(Instruction::Invoke { name: name.clone(), arity: arguments.len() });
            assert(final(code)@ =~= old(code)@ + code_of(*e));
        },
    }
}

} // verus!
