use vstd::prelude::*;
use std::rc::Rc;
use crate::expression::{format_of, Expression, Number, Operator};

verus! {

/// Why an evaluation stopped without a value.
#[derive(Debug, Clone, PartialEq, Eq)]
pub enum EvaluationError {
    /// The right operand of a division evaluated to positive or negative zero.
    DivisionByZero,
    /// A call named a function that the context has no registration for.
    FunctionNotFound(String),
}

/// Whether a binary64 bit pattern encodes `0.0` or `-0.0`, the two values
/// that compare equal to zero.
pub open spec fn is_zero_bits(b: u64) -> bool {
    b == 0 || b == 0x8000_0000_0000_0000u64
}

/// The value of an expression, or the first error met in evaluation order
/// (children before their parent, left to right). `arith` is what the host's
/// floating-point arithmetic gives for an operator and two operand encodings;
/// `call` is what the function registered under a name gives for the argument
/// encodings; `names` are the registered function names.
pub open spec fn value_of(
    e: Expression,
    names: Seq<Seq<char>>,
    arith: spec_fn(Operator, u64, u64) -> u64,
    call: spec_fn(Seq<char>, Seq<u64>) -> u64,
) -> Result<u64, EvaluationError>
    decreases e,
{
    match e {
        Expression::Constant(n) => Ok(n.bits),
        Expression::Binary { operator, left, right } => match value_of(*left, names, arith, call) {
            Err(x) => Err(x),
            Ok(l) => match value_of(*right, names, arith, call) {
                Err(x) => Err(x),
                Ok(r) => if operator == Operator::Divide && is_zero_bits(r) {
                    Err(EvaluationError::DivisionByZero)
                } else {
                    Ok(arith(operator, l, r))
                },
            },
        },
        Expression::Function { name, arguments } => match values_of(
            arguments@,
            names,
            arith,
            call,
        ) {
            Err(x) => Err(x),
            Ok(vs) => if names.contains(name@) {
                Ok(call(name@, vs))
            } else {
                Err(EvaluationError::FunctionNotFound(name))
            },
        },
    }
}

/// The values of a list of arguments, evaluated left to right, or the first
/// error among them.
pub open spec fn values_of(
    args: Seq<Rc<Expression>>,
    names: Seq<Seq<char>>,
    arith: spec_fn(Operator, u64, u64) -> u64,
    call: spec_fn(Seq<char>, Seq<u64>) -> u64,
) -> Result<Seq<u64>, EvaluationError>
    decreases args,
{
    if args.len() == 0 {
        Ok(Seq::empty())
    } else {
        match values_of(args.subrange(0, args.len() - 1), names, arith, call) {
            Err(x) => Err(x),
            Ok(vs) => match value_of(*args[args.len() - 1], names, arith, call) {
                Err(x) => Err(x),
                Ok(v) => Ok(vs.push(v)),
            },
        }
    }
}

impl EvaluationError {
    /// A message naming what went wrong.
    pub fn message(&self) -> (r: String)
        ensures
            r@ == message_of(*self),
    {
        match self {
            EvaluationError::DivisionByZero => {
                proof { reveal_strlit("Divide by zero!"); }
                String::from_str("Divide by zero!")
            },
            EvaluationError::FunctionNotFound(name) => {
                proof {
                    reveal_strlit("Function ");
                    reveal_strlit(" not found. Use expression context to add a function");
                }
                let mut r = String::from_str("Function ");
                r.append(name.as_str());
                r.append(" not found. Use expression context to add a function");
                r
            },
        }
    }
}

/// The message of an error.
pub open spec fn message_of(e: EvaluationError) -> Seq<char> {
    match e {
        EvaluationError::DivisionByZero => "Divide by zero!"@,
        EvaluationError::FunctionNotFound(name) => "Function "@ + name@
            + " not found. Use expression context to add a function"@,
    }
}

/// One step of a compiled expression, run against a stack of operand encodings.
#[derive(Debug, Clone)]
pub enum Instruction {
    /// Push a constant.
    Push(u64),
    /// Pop the right and then the left operand, push their combination.
    Apply(Operator),
    /// Pop `arity` arguments, push what the named function gives for them.
    Invoke { name: String, arity: usize },
}

/// An expression compiled in post order: operands before the node that uses them.
pub open spec fn code_of(e: Expression) -> Seq<Instruction>
    decreases e,
{
    match e {
        Expression::Constant(n) => seq![Instruction::Push(n.bits)],
        Expression::Binary { operator, left, right } => code_of(*left) + code_of(*right) + seq![
            Instruction::Apply(operator),
        ],
        Expression::Function { name, arguments } => codes_of(arguments@) + seq![
            Instruction::Invoke { name, arity: arguments.len() },
        ],
    }
}

/// The arguments of a call compiled one after the other, left to right.
pub open spec fn codes_of(args: Seq<Rc<Expression>>) -> Seq<Instruction>
    decreases args,
{
    if args.len() == 0 {
        Seq::empty()
    } else {
        codes_of(args.subrange(0, args.len() - 1)) + code_of(*args[args.len() - 1])
    }
}

/// What running `code` on `stack` ends in: the value left on top of the
/// stack, or the first error met.
pub open spec fn run(
    code: Seq<Instruction>,
    stack: Seq<u64>,
    names: Seq<Seq<char>>,
    arith: spec_fn(Operator, u64, u64) -> u64,
    call: spec_fn(Seq<char>, Seq<u64>) -> u64,
) -> Result<u64, EvaluationError>
    decreases code.len(),
{
    if code.len() == 0 {
        Ok(stack.last())
    } else {
        let rest = code.subrange(1, code.len() as int);
        let n = stack.len() as int;
        match code[0] {
            Instruction::Push(b) => run(rest, stack.push(b), names, arith, call),
            Instruction::Apply(op) => if op == Operator::Divide && is_zero_bits(stack[n - 1]) {
                Err(EvaluationError::DivisionByZero)
            } else {
                run(
                    rest,
                    stack.subrange(0, n - 2).push(arith(op, stack[n - 2], stack[n - 1])),
                    names,
                    arith,
                    call,
                )
            },
            Instruction::Invoke { name, arity } => if names.contains(name@) {
                run(
                    rest,
                    stack.subrange(0, n - arity).push(call(name@, stack.subrange(n - arity, n))),
                    names,
                    arith,
                    call,
                )
            } else {
                Err(EvaluationError::FunctionNotFound(name))
            },
        }
    }
}

/// Whether `code` runs on a stack of depth `n` without ever popping more than
/// the stack holds, and ends with exactly one value on it.
pub open spec fn fits(code: Seq<Instruction>, n: int) -> bool
    decreases code.len(),
{
    if code.len() == 0 {
        n == 1
    } else {
        let rest = code.subrange(1, code.len() as int);
        match code[0] {
            Instruction::Push(_) => fits(rest, n + 1),
            Instruction::Apply(_) => n >= 2 && fits(rest, n - 1),
            Instruction::Invoke { arity, .. } => n >= arity && fits(rest, n - arity + 1),
        }
    }
}

/// Running an expression's code in front of more code first leaves the
/// expression's value on the stack, or stops with its error.
pub proof fn lemma_run_code(
    e: Expression,
    rest: Seq<Instruction>,
    stack: Seq<u64>,
    names: Seq<Seq<char>>,
    arith: spec_fn(Operator, u64, u64) -> u64,
    call: spec_fn(Seq<char>, Seq<u64>) -> u64,
)
    ensures
        run(code_of(e) + rest, stack, names, arith, call) == match value_of(
            e,
            names,
            arith,
            call,
        ) {
            Ok(v) => run(rest, stack.push(v), names, arith, call),
            Err(x) => Err(x),
        },
    decreases e,
{
    match e {
        Expression::Constant(n) => {
            let code = code_of(e) + rest;
            assert(code[0] == Instruction::Push(n.bits));
            assert(code.subrange(1, code.len() as int) =~= rest);
        },
        Expression::Binary { operator, left, right } => {
            let ghost l_e = *left;
            let ghost r_e = *right;
            let tail = seq![Instruction::Apply(operator)] + rest;
            let mid = code_of(r_e) + tail;
            assert(code_of(e) + rest =~= code_of(l_e) + mid);
            lemma_run_code(l_e, mid, stack, names, arith, call);
            if let Ok(l) = value_of(l_e, names, arith, call) {
                lemma_run_code(r_e, tail, stack.push(l), names, arith, call);
                if let Ok(r) = value_of(r_e, names, arith, call) {
                    let s = stack.push(l).push(r);
                    assert(tail.subrange(1, tail.len() as int) =~= rest);
                    assert(s.subrange(0, s.len() - 2) =~= stack);
                }
            }
        },
        Expression::Function { name, arguments } => {
            let tail = seq![Instruction::Invoke { name, arity: arguments.len() }] + rest;
            assert(code_of(e) + rest =~= codes_of(arguments@) + tail);
            lemma_run_codes(arguments@, tail, stack, names, arith, call);
            if let Ok(vs) = values_of(arguments@, names, arith, call) {
                let s = stack + vs;
                assert(tail[0] == Instruction::Invoke { name, arity: arguments.len() });
                assert(arguments.len() == vs.len());
                assert(tail.subrange(1, tail.len() as int) =~= rest);
                assert(s.subrange(0, stack.len() as int) =~= stack);
                assert(s.subrange(stack.len() as int, s.len() as int) =~= vs);
            }
        },
    }
}

/// Running the code of a list of arguments leaves their values on the stack,
/// in order, or stops with the first error among them.
pub proof fn lemma_run_codes(
    args: Seq<Rc<Expression>>,
    rest: Seq<Instruction>,
    stack: Seq<u64>,
    names: Seq<Seq<char>>,
    arith: spec_fn(Operator, u64, u64) -> u64,
    call: spec_fn(Seq<char>, Seq<u64>) -> u64,
)
    ensures
        run(codes_of(args) + rest, stack, names, arith, call) == match values_of(
            args,
            names,
            arith,
            call,
        ) {
            Ok(vs) => run(rest, stack + vs, names, arith, call),
            Err(x) => Err(x),
        },
        values_of(args, names, arith, call) is Ok ==> values_of(
            args,
            names,
            arith,
            call,
        )->Ok_0.len() == args.len(),
    decreases args,
{
    if args.len() == 0 {
        assert(codes_of(args) + rest =~= rest);
        assert(stack + Seq::<u64>::empty() =~= stack);
    } else {
        let prefix = args.subrange(0, args.len() - 1);
        let ghost last = *args[args.len() - 1];
        let mid = code_of(last) + rest;
        assert(codes_of(args) + rest =~= codes_of(prefix) + mid);
        lemma_run_codes(prefix, mid, stack, names, arith, call);
        if let Ok(vs) = values_of(prefix, names, arith, call) {
            lemma_run_code(last, rest, stack + vs, names, arith, call);
            if let Ok(v) = value_of(last, names, arith, call) {
                assert((stack + vs).push(v) =~= stack + vs.push(v));
            }
        }
    }
}

/// Prepending an expression's code to `rest` needs the same stack depth as
/// `rest` needs one deeper.
pub proof fn lemma_fits_code(e: Expression, rest: Seq<Instruction>, n: int)
    requires
        n >= 0,
    ensures
        fits(code_of(e) + rest, n) == fits(rest, n + 1),
    decreases e,
{
    match e {
        Expression::Constant(b) => {
            let code = code_of(e) + rest;
            assert(code[0] == Instruction::Push(b.bits));
            assert(code.subrange(1, code.len() as int) =~= rest);
        },
        Expression::Binary { operator, left, right } => {
            let ghost l_e = *left;
            let ghost r_e = *right;
            let tail = seq![Instruction::Apply(operator)] + rest;
            let mid = code_of(r_e) + tail;
            assert(code_of(e) + rest =~= code_of(l_e) + mid);
            lemma_fits_code(l_e, mid, n);
            lemma_fits_code(r_e, tail, n + 1);
            assert(tail.subrange(1, tail.len() as int) =~= rest);
        },
        Expression::Function { name, arguments } => {
            let tail = seq![Instruction::Invoke { name, arity: arguments.len() }] + rest;
            assert(code_of(e) + rest =~= codes_of(arguments@) + tail);
            lemma_fits_codes(arguments@, tail, n);
            assert(tail[0] == Instruction::Invoke { name, arity: arguments.len() });
            assert(tail.subrange(1, tail.len() as int) =~= rest);
        },
    }
}

/// Prepending the code of a list of arguments to `rest` needs the same stack
/// depth as `rest` needs with one more value per argument.
pub proof fn lemma_fits_codes(args: Seq<Rc<Expression>>, rest: Seq<Instruction>, n: int)
    requires
        n >= 0,
    ensures
        fits(codes_of(args) + rest, n) == fits(rest, n + args.len()),
    decreases args,
{
    if args.len() == 0 {
        assert(codes_of(args) + rest =~= rest);
    } else {
        let prefix = args.subrange(0, args.len() - 1);
        let ghost last = *args[args.len() - 1];
        let mid = code_of(last) + rest;
        assert(codes_of(args) + rest =~= codes_of(prefix) + mid);
        lemma_fits_codes(prefix, mid, n);
        lemma_fits_code(last, rest, n + prefix.len());
    }
}

/// A constant evaluates to exactly its own encoding and formats as its own text.
pub proof fn lemma_constant(
    n: Number,
    names: Seq<Seq<char>>,
    arith: spec_fn(Operator, u64, u64) -> u64,
    call: spec_fn(Seq<char>, Seq<u64>) -> u64,
)
    ensures
        value_of(Expression::Constant(n), names, arith, call) == Ok::<u64, EvaluationError>(
            n.bits,
        ),
        run(code_of(Expression::Constant(n)), Seq::empty(), names, arith, call) == Ok::<
            u64,
            EvaluationError,
        >(n.bits),
        format_of(Expression::Constant(n)) == n.text@,
{
    lemma_compiled_evaluation(Expression::Constant(n), names, arith, call);
}

/// A binary node's result depends on its children only through their
/// results, so a subexpression shared by several parents contributes the same
/// to each of them.
pub proof fn lemma_children_by_value(
    p: Expression,
    q: Expression,
    names: Seq<Seq<char>>,
    arith: spec_fn(Operator, u64, u64) -> u64,
    call: spec_fn(Seq<char>, Seq<u64>) -> u64,
)
    requires
        p is Binary,
        q is Binary,
        p->operator == q->operator,
        value_of(*p->left, names, arith, call) == value_of(*q->left, names, arith, call),
        value_of(*p->right, names, arith, call) == value_of(*q->right, names, arith, call),
    ensures
        value_of(p, names, arith, call) == value_of(q, names, arith, call),
{
}

/// Evaluating an expression and running its compiled code agree: same value,
/// same error. The code runs on an empty stack without running short.
pub proof fn lemma_compiled_evaluation(
    e: Expression,
    names: Seq<Seq<char>>,
    arith: spec_fn(Operator, u64, u64) -> u64,
    call: spec_fn(Seq<char>, Seq<u64>) -> u64,
)
    ensures
        run(code_of(e), Seq::empty(), names, arith, call) == value_of(e, names, arith, call),
        fits(code_of(e), 0),
{
    let empty = Seq::<Instruction>::empty();
    assert(code_of(e) + empty =~= code_of(e));
    lemma_run_code(e, empty, Seq::empty(), names, arith, call);
    lemma_fits_code(e, empty, 0);
}

} // verus!
