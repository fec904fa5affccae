use std::rc::Rc;

use expr_eval::{EvaluationError, Expression, ExpressionContext, Number, Operator, Request};

type Callable = Box<dyn Fn(&[f64]) -> f64>;

fn constant(value: f64) -> Expression {
    ExpressionContext::new_constant_expression(Number {
        bits: value.to_bits(),
        text: format!("{:.6}", value),
    })
}

fn binary(operator: Operator, left: Expression, right: Expression) -> Expression {
    ExpressionContext::new_binary_expression(operator, left, right)
}

fn call(name: &str, arguments: &[f64]) -> Expression {
    let arguments = arguments.iter().map(|v| Rc::new(constant(*v))).collect();
    ExpressionContext::new_function_expression(name.to_string(), arguments)
}

fn evaluate(
    context: &ExpressionContext,
    callables: &[Callable],
    expression: &Expression,
) -> Result<f64, EvaluationError> {
    let mut machine = context.eval(expression);
    loop {
        let value = match machine.next(context) {
            Request::Finished(bits) => return Ok(f64::from_bits(bits)),
            Request::Failed(error) => return Err(error),
            Request::Load(bits) => bits,
            Request::Compute { operator, left, right } => {
                let (l, r) = (f64::from_bits(left), f64::from_bits(right));
                let v = match operator {
                    Operator::Add => l + r,
                    Operator::Subtract => l - r,
                    Operator::Multiply => l * r,
                    Operator::Divide => l / r,
                };
                v.to_bits()
            }
            Request::Invoke { slot, arguments } => {
                let values: Vec<f64> = arguments.iter().map(|b| f64::from_bits(*b)).collect();
                callables[slot](&values).to_bits()
            }
        };
        machine.resume(value);
    }
}

fn eval(context: &ExpressionContext, expression: &Expression) -> Result<f64, String> {
    evaluate(context, &[], expression).map_err(|e| e.message())
}

#[test]
fn test_basic_evaluation() {
    let context = ExpressionContext::new();
    let expr = constant(42.0);

    let result = eval(&context, &expr).unwrap();
    assert_eq!(result, 42.0);
}

#[test]
fn test_binary_expression_evaluation() {
    let context = ExpressionContext::new();

    let sub_expr = binary(Operator::Add, constant(10.0), constant(5.0));

    let result = eval(&context, &sub_expr).unwrap();
    assert_eq!(result, 15.0);

    let main_expr = binary(Operator::Subtract, sub_expr, constant(3.0));

    let result = eval(&context, &main_expr).unwrap();
    assert_eq!(result, 12.0);
}

#[test]
fn serialization_and_eval_works() {
    let context = ExpressionContext::new();

    let e1 = constant(15.0);

    assert_eq!(e1.format(), String::from("15.000000"));
    assert_eq!(eval(&context, &e1).unwrap(), 15.000000_f64);

    let e2 = binary(Operator::Add, constant(12.0), constant(3.0));

    assert_eq!(e2.format(), String::from("(12.000000 + 3.000000)"));
    assert_eq!(eval(&context, &e2).unwrap(), 15.000000_f64);

    let ce = binary(Operator::Add, constant(10.0), constant(2.0));

    let e3 = binary(Operator::Add, ce.clone(), constant(3.0));

    assert_eq!(e3.format(), String::from("((10.000000 + 2.000000) + 3.000000)"));
    assert_eq!(eval(&context, &e3).unwrap(), 15.000000_f64);

    let e4 = binary(
        Operator::Add,
        ce,
        binary(
            Operator::Add,
            binary(Operator::Add, constant(1.0), constant(1.0)),
            binary(Operator::Subtract, constant(2.0), constant(1.0)),
        ),
    );
    assert_eq!(
        e4.format(),
        String::from("((10.000000 + 2.000000) + ((1.000000 + 1.000000) + (2.000000 - 1.000000)))")
    );
    assert_eq!(eval(&context, &e4).unwrap(), 15.000000_f64);
}

#[test]
fn divide_by_zero_error() {
    let context = ExpressionContext::new();

    let de = binary(Operator::Divide, constant(10.0), constant(0.0));

    let res = eval(&context, &de);

    assert_eq!(res.err(), Some("Divide by zero!".to_string()));
}

#[test]
fn function_expressions_work_function_not_registered() {
    let context = ExpressionContext::new();

    let e1 = call("pow", &[3.0, 2.0]);
    assert_eq!(e1.format(), String::from("(pow(3.000000, 2.000000))"));

    let res = eval(&context, &e1);

    assert_eq!(
        res.err(),
        Some("Function pow not found. Use expression context to add a function".to_string())
    );
}

#[test]
fn function_expressions_work() {
    let mut context = ExpressionContext::new();
    let mut callables: Vec<Callable> = Vec::new();

    let slot = context.register_function("pow".to_string());
    assert_eq!(slot, callables.len());
    callables.push(Box::new(|arr: &[f64]| arr[0].powf(arr[1])));

    let e1 = call("pow", &[3.0, 2.0]);
    assert_eq!(e1.format(), String::from("(pow(3.000000, 2.000000))"));
    assert_eq!(evaluate(&context, &callables, &e1), Ok(9.0_f64));
}

#[test]
fn unregistered_function_error_kind() {
    let context = ExpressionContext::new();
    let res = evaluate(&context, &[], &call("pow", &[3.0, 2.0]));
    assert_eq!(res, Err(EvaluationError::FunctionNotFound("pow".to_string())));
}

#[test]
fn constant_keeps_its_value_exactly() {
    let context = ExpressionContext::new();
    for v in [42.0, 0.1, -7.25, 1e300, f64::MIN_POSITIVE] {
        let e = constant(v);
        assert_eq!(eval(&context, &e).unwrap().to_bits(), v.to_bits());
    }
    assert_eq!(constant(42.0).format(), "42.000000");
}

#[test]
fn shared_subexpression_in_two_parents() {
    let context = ExpressionContext::new();
    let ce = Rc::new(binary(Operator::Add, constant(10.0), constant(2.0)));
    let p1 = Expression::Binary {
        operator: Operator::Multiply,
        left: Rc::clone(&ce),
        right: Rc::new(constant(2.0)),
    };
    let p2 = Expression::Binary {
        operator: Operator::Subtract,
        left: Rc::new(binary(Operator::Add, constant(1.0), constant(1.0))),
        right: Rc::clone(&ce),
    };
    assert_eq!(eval(&context, &p1).unwrap(), 24.0);
    assert_eq!(eval(&context, &p2).unwrap(), -10.0);
    assert_eq!(eval(&context, &ce).unwrap(), 12.0);
    assert_eq!(p2.format(), "((1.000000 + 1.000000) - (10.000000 + 2.000000))");
}

#[test]
fn multiply_and_divide() {
    let context = ExpressionContext::new();
    let m = binary(Operator::Multiply, constant(2.5), constant(4.0));
    assert_eq!(eval(&context, &m).unwrap(), 10.0);
    assert_eq!(m.format(), "(2.500000 * 4.000000)");
    let d = binary(Operator::Divide, constant(7.0), constant(2.0));
    assert_eq!(eval(&context, &d).unwrap(), 3.5);
    assert_eq!(d.format(), "(7.000000 / 2.000000)");
}

#[test]
fn divide_by_negative_zero_fails() {
    let context = ExpressionContext::new();
    let de = binary(Operator::Divide, constant(1.0), constant(-0.0));
    assert_eq!(evaluate(&context, &[], &de), Err(EvaluationError::DivisionByZero));
}

#[test]
fn zero_divided_by_number_is_fine() {
    let context = ExpressionContext::new();
    let de = binary(Operator::Divide, constant(0.0), constant(5.0));
    assert_eq!(eval(&context, &de).unwrap(), 0.0);
}

#[test]
fn first_error_in_evaluation_order_wins() {
    let context = ExpressionContext::new();
    let e = binary(
        Operator::Add,
        binary(Operator::Divide, constant(1.0), constant(0.0)),
        call("missing", &[1.0]),
    );
    assert_eq!(evaluate(&context, &[], &e), Err(EvaluationError::DivisionByZero));
    let f = binary(
        Operator::Add,
        call("missing", &[1.0]),
        binary(Operator::Divide, constant(1.0), constant(0.0)),
    );
    assert_eq!(
        evaluate(&context, &[], &f),
        Err(EvaluationError::FunctionNotFound("missing".to_string()))
    );
}

#[test]
fn argument_error_comes_before_lookup() {
    let context = ExpressionContext::new();
    let arguments = vec![Rc::new(binary(Operator::Divide, constant(1.0), constant(0.0)))];
    let e = ExpressionContext::new_function_expression("missing".to_string(), arguments);
    assert_eq!(evaluate(&context, &[], &e), Err(EvaluationError::DivisionByZero));
}

#[test]
fn nested_function_arguments() {
    let mut context = ExpressionContext::new();
    let mut callables: Vec<Callable> = Vec::new();
    let slot = context.register_function("sum".to_string());
    assert_eq!(slot, 0);
    callables.push(Box::new(|arr: &[f64]| arr.iter().sum()));
    let arguments = vec![
        Rc::new(binary(Operator::Add, constant(1.0), constant(2.0))),
        Rc::new(constant(4.0)),
        Rc::new(call("sum", &[])),
    ];
    let e = ExpressionContext::new_function_expression("sum".to_string(), arguments);
    assert_eq!(e.format(), "(sum((1.000000 + 2.000000), 4.000000, (sum())))");
    assert_eq!(evaluate(&context, &callables, &e), Ok(7.0));
}

#[test]
fn registering_again_keeps_the_slot() {
    let mut context = ExpressionContext::new();
    assert_eq!(context.lookup(&"pow".to_string()), None);
    assert_eq!(context.register_function("pow".to_string()), 0);
    assert_eq!(context.register_function("max".to_string()), 1);
    assert_eq!(context.register_function("pow".to_string()), 0);
    assert_eq!(context.lookup(&"max".to_string()), Some(1));
    assert_eq!(context.lookup(&"pow".to_string()), Some(0));
}

#[test]
fn last_registration_wins() {
    let mut context = ExpressionContext::new();
    let mut callables: Vec<Callable> = Vec::new();
    let slot = context.register_function("f".to_string());
    callables.push(Box::new(|_: &[f64]| 1.0));
    let again = context.register_function("f".to_string());
    assert_eq!(again, slot);
    callables[again] = Box::new(|_: &[f64]| 2.0);
    assert_eq!(evaluate(&context, &callables, &call("f", &[])), Ok(2.0));
}

#[test]
fn machine_requests_in_post_order() {
    let context = ExpressionContext::new();
    let e = binary(Operator::Subtract, constant(5.0), constant(3.0));
    let mut m = context.eval(&e);
    assert_eq!(m.next(&context), Request::Load(5.0f64.to_bits()));
    m.resume(5.0f64.to_bits());
    assert_eq!(m.next(&context), Request::Load(3.0f64.to_bits()));
    m.resume(3.0f64.to_bits());
    assert_eq!(
        m.next(&context),
        Request::Compute {
            operator: Operator::Subtract,
            left: 5.0f64.to_bits(),
            right: 3.0f64.to_bits()
        }
    );
    m.resume(2.0f64.to_bits());
    assert_eq!(m.next(&context), Request::Finished(2.0f64.to_bits()));
}

#[test]
fn operator_symbols() {
    assert_eq!(Operator::Add.symbol(), "+");
    assert_eq!(Operator::Subtract.symbol(), "-");
    assert_eq!(Operator::Multiply.symbol(), "*");
    assert_eq!(Operator::Divide.symbol(), "/");
}

#[test]
fn error_messages() {
    assert_eq!(EvaluationError::DivisionByZero.message(), "Divide by zero!");
    assert_eq!(
        EvaluationError::FunctionNotFound("abs".to_string()).message(),
        "Function abs not found. Use expression context to add a function"
    );
}
