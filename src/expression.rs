use vstd::prelude::*;
use std::rc::Rc;

verus! {

/// The four arithmetic operators a binary node can combine its operands with.
#[derive(Debug, Clone, Copy, PartialEq, Eq, Structural)]
pub enum Operator {
    Add,
    Subtract,
    Multiply,
    Divide,
}

/// The single character that stands for an operator in formatted text.
pub open spec fn symbol_of(op: Operator) -> char {
    match op {
        Operator::Add => '+',
        Operator::Subtract => '-',
        Operator::Multiply => '*',
        Operator::Divide => '/',
    }
}

impl Operator {
    /// The operator's symbol as text.
    pub fn symbol(&self) -> (r: String)
        ensures
            r@ == seq![symbol_of(*self)],
    {
        match self {
            Operator::Add => {
                proof { reveal_strlit("+"); }
                String::from_str("+")
            },
            Operator::Subtract => {
                proof { reveal_strlit("-"); }
                String::from_str("-")
            },
            Operator::Multiply => {
                proof { reveal_strlit("*"); }
                String::from_str("*")
            },
            Operator::Divide => {
                proof { reveal_strlit("/"); }
                String::from_str("/")
            },
        }
    }
}

/// A numeric constant. `bits` is the IEEE-754 binary64 encoding of the value;
/// `text` is the value written in fixed point with six digits after the
/// decimal point, the form in which the constant is formatted.
#[derive(Debug, Clone)]
pub struct Number {
    pub bits: u64,
    pub text: String,
}

/// An immutable expression tree. Children of a binary node are shared
/// handles, so one subexpression may stand under several parents.
#[derive(Debug, Clone)]
pub enum Expression {
    Constant(Number),
    Binary { operator: Operator, left: Rc<Expression>, right: Rc<Expression> },
    Function { name: String, arguments: Vec<Rc<Expression>> },
}

/// The canonical text of an expression: constants as their fixed-point text,
/// binary nodes as `(left op right)`, calls as `(name(arg, arg, ...))`.
pub open spec fn format_of(e: Expression) -> Seq<char>
    decreases e,
{
    match e {
        Expression::Constant(n) => n.text@,
        Expression::Binary { operator, left, right } => seq!['('] + format_of(*left) + seq![
            ' ',
            symbol_of(operator),
            ' ',
        ] + format_of(*right) + seq![')'],
        Expression::Function { name, arguments } => seq!['('] + name@ + seq!['('] + join_of(
            arguments@,
        ) + seq![')', ')'],
    }
}

/// The formatted arguments of a call, separated by `", "`.
pub open spec fn join_of(args: Seq<Rc<Expression>>) -> Seq<char>
    decreases args,
{
    if args.len() == 0 {
        Seq::empty()
    } else if args.len() == 1 {
        format_of(*args[0])
    } else {
        join_of(args.subrange(0, args.len() - 1)) + seq![',', ' '] + format_of(
            *args[args.len() - 1],
        )
    }
}

impl Expression {
    /// The canonical text of this expression; see `format_of`.
    pub fn format(&self) -> (r: String)
        ensures
            r@ == format_of(*self),
        decreases self,
    {
        match self {
            Expression::Constant(n) => n.text.clone(),
            Expression::Binary { operator, left, right } => {
                proof { reveal_strlit("("); reveal_strlit(" "); reveal_strlit(")"); }
                let mut r = String::from_str("(");
                let l = left.format();
                r.append(l.as_str());
                r.append(" ");
                let sym = operator.symbol();
                r.append(sym.as_str());
                r.append(" ");
                let rt = right.format();
                r.append(rt.as_str());
                r.append(")");
                assert(r@ =~= format_of(*self));
                r
            },
            Expression::Function { name, arguments } => {
                proof { reveal_strlit("("); reveal_strlit("))"); }
                let mut r = String::from_str("(");
                r.append(name.as_str());
                r.append("(");
                let ghost head = r@;
                let mut i: usize = 0;
                while i < arguments.len()
                    invariant
                        i <= arguments@.len(),
                        r@ == head + join_of(arguments@.subrange(0, i as int)),
                        *self == (Expression::Function { name: *name, arguments: *arguments }),
                    decreases arguments@.len() - i,
                {
                    let ghost prefix = arguments@.subrange(0, i as int);
                    let ghost next = arguments@.subrange(0, i + 1);
                    assert(next.subrange(0, next.len() - 1) =~= prefix);
                    if i > 0 {
                        proof { reveal_strlit(", "); }
                        r.append(", ");
                    }
                    proof {
                        broadcast use vstd::std_specs::vec::axiom_vec_index_decreases;
                        assert(decreases_to!(*self => self->arguments));
                        assert(decreases_to!(*arguments => arguments[i as int]));
                    }
                    let ghost before = r@;
                    let a = arguments[i].format();
                    assert(a@ == format_of(*next[i as int]));
                    r.append(a.as_str());
                    proof {
                        assert(next[i as int] == arguments@[i as int]);
                        if i == 0 {
                            assert(r@ =~= head + join_of(next));
                        } else {
                            assert(join_of(next) == join_of(prefix) + seq![',', ' '] + format_of(
                                *next[i as int],
                            ));
                            assert(before == head + join_of(prefix) + seq![',', ' ']);
                            assert(r@ =~= head + join_of(next));
                        }
                    }
                    i = i + 1;
                }
                assert(arguments@.subrange(0, arguments@.len() as int) =~= arguments@);
                r.append("))");
                assert(r@ =~= format_of(*self));
                r
            },
        }
    }
}

} // verus!
