use vstd::prelude::*;
use std::rc::Rc;
use crate::expression::{Expression, Number, Operator};
use crate::evaluation::code_of;
use crate::machine::Evaluation;

verus! {

/// Builds expressions, starts their evaluation, and keeps the registry of
/// named functions that calls may use. The callables themselves live with
/// the host; the registry gives each name the slot under which the host
/// keeps its callable.
pub struct ExpressionContext {
    functions: Vec<String>,
}

impl View for ExpressionContext {
    type V = Seq<Seq<char>>;

    /// The registered names; a name's index is its slot.
    closed spec fn view(&self) -> Seq<Seq<char>> {
        self.functions@.map_values(|s: String| s@)
    }
}

/// `slot` is the first place at which `name` stands in `names`.
pub open spec fn first_slot(names: Seq<Seq<char>>, name: Seq<char>, slot: int) -> bool {
    &&& 0 <= slot < names.len()
    &&& names[slot] == name
    &&& forall|j: int| 0 <= j < slot ==> names[j] != name
}

impl Default for ExpressionContext {
    /// A context with no registered functions.
    fn default() -> (r: ExpressionContext)
        ensures
            r@ == Seq::<Seq<char>>::empty(),
    {
        ExpressionContext::new()
    }
}

impl ExpressionContext {
    /// A context with no registered functions.
    pub fn new() -> (r: ExpressionContext)
        ensures
            r@ == Seq::<Seq<char>>::empty(),
    {
        let r = ExpressionContext { functions: Vec::new() };
        assert(r@ =~= Seq::<Seq<char>>::empty());
        r
    }

    /// A leaf holding one constant.
    pub fn new_constant_expression(value: Number) -> (r: Expression)
        ensures
            r == Expression::Constant(value),
    {
        Expression::Constant(value)
    }

    /// A binary node over two operands; nothing about the operands is checked.
    pub fn new_binary_expression(operator: Operator, left: Expression, right: Expression) -> (r:
        Expression)
        ensures
            r matches Expression::Binary { operator: o, left: l, right: rt } && o == operator && *l
                == left && *rt == right,
    {
        Expression::Binary { operator, left: Rc::new(left), right: Rc::new(right) }
    }

    /// A call of the function registered under `name` on the given arguments.
    pub fn new_function_expression(name: String, arguments: Vec<Rc<Expression>>) -> (r:
        Expression)
        ensures
            r == (Expression::Function { name, arguments }),
    {
        Expression::Function { name, arguments }
    }

    /// The slot of `name` in the registry, if it is registered.
    pub fn lookup(&self, name: &String) -> (r: Option<usize>)
        ensures
            match r {
                Some(slot) => first_slot(self@, name@, slot as int),
                None => !self@.contains(name@),
            },
    {
        let mut i: usize = 0;
        while i < self.functions.len()
            invariant
                i <= self.functions@.len(),
                forall|j: int| 0 <= j < i ==> self@[j] != name@,
            decreases self.functions@.len() - i,
        {
            if self.functions[i] == *name {
                return Some(i);
            }
            i = i + 1;
        }
        proof {
            if self@.contains(name@) {
                let k = choose|k: int| 0 <= k < self@.len() && self@[k] == name@;
                assert(self@[k] != name@);
            }
        }
        None
    }

    /// Registers `name` and returns the slot under which the host keeps its
    /// callable. A name registered before keeps its slot, so registering it
    /// again replaces its callable: the last registration wins.
    pub fn register_function(&mut self, name: String) -> (slot: usize)
        ensures
            old(self)@.contains(name@) ==> final(self)@ == old(self)@,
            !old(self)@.contains(name@) ==> final(self)@ == old(self)@.push(name@),
            first_slot(final(self)@, name@, slot as int),
    {
        match self.lookup(&name) {
            Some(slot) => slot,
            None => {
                let slot = self.functions.len();
                let ghost before = self@;
                self.functions.push(name);
                proof {
                    assert(self@ =~= before.push(name@));
                    assert(self@[slot as int] == name@);
                }
                slot
            },
        }
    }

    /// Starts evaluating `expression`: the returned machine runs the
    /// expression's code from the beginning on an empty stack.
    pub fn eval(&self, expression: &Expression) -> (r: Evaluation)
        ensures
            r.wf(),
            r@ == (code_of(*expression), Seq::<u64>::empty()),
    {
        Evaluation::start(expression)
    }
}

} // verus!
