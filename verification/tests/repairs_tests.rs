use model_repair::context::permissible_bounds::PermissibleBounds;
use model_repair::context::variable_ranges::VariableRanges;
use model_repair::prism::expression::{Expression, Identifier, Span, VariableReference};
use model_repair::prism::model::{
    Assignment, Attributes, Command, Model, Module, Update, VariableInfo, VariableManager, VariableRange,
    VariableScope,
};
use model_repair::repairs::error::RepairError;
use model_repair::repairs::parameters::{RepairParameters, Visibility};
use model_repair::repairs::repair_expression::{evaluate_const, ConstEvaluationResult};
use model_repair::repairs::types::{
    CostFunction, CostValue, FunctionKind, RepairKind, RepairVariable, ONE_BITS,
};
use model_repair::repairs::wiring::wire_up_repairs;

fn sp() -> Span {
    Span::new(0, 0)
}

fn num(v: i64) -> Expression {
    Expression::Int(v, sp())
}

fn var(i: usize) -> Expression {
    Expression::VarOrConst(VariableReference::new(i), sp())
}

fn call(name: &str, args: Vec<Expression>) -> Expression {
    Expression::Function(Identifier::new(name.to_string(), sp()), args, sp())
}

fn bx(e: Expression) -> Box<Expression> {
    Box::new(e)
}

fn bounded(name: &str, min: i64, max: i64, init: Expression) -> VariableInfo {
    VariableInfo {
        name: Identifier::new(name.to_string(), sp()),
        range: VariableRange::BoundedInt { min: num(min), max: num(max), span: sp() },
        is_constant: false,
        scope: VariableScope::GlobalVariable,
        initial_value: Some(init),
        attributes: Attributes::new(),
        span: sp(),
    }
}

fn model_with(variables: Vec<VariableInfo>, guard: Expression, value: Expression) -> Model {
    let command = Command {
        action: None,
        guard,
        updates: vec![Update {
            probability: num(1),
            assignments: vec![Assignment { target: VariableReference::new(0), value, span: sp() }],
            span: sp(),
        }],
        span: sp(),
    };
    Model {
        variable_manager: VariableManager { variables },
        modules: vec![Module {
            name: Identifier::new("m".to_string(), sp()),
            commands: vec![command],
            attributes: Attributes::new(),
            span: sp(),
        }],
        formulas: Vec::new(),
        labels: Vec::new(),
        span: sp(),
    }
}

fn guard_of(m: &Model) -> &Expression {
    &m.modules[0].commands[0].guard
}

fn value_of(m: &Model) -> &Expression {
    &m.modules[0].commands[0].updates[0].assignments[0].value
}

#[test]
fn declared_ranges_become_integer_bounds() {
    let mut unbounded = bounded("y", 0, 0, num(0));
    unbounded.range = VariableRange::Boolean { span: sp() };
    let m = model_with(vec![bounded("x", -2, 7, num(0)), unbounded], Expression::Bool(true, sp()), num(0));
    let r = VariableRanges::from_model(&m);
    assert_eq!(r.bounds, vec![PermissibleBounds::IntegerRange { min: -2, max: 7 }, PermissibleBounds::Unknown]);
}

#[test]
fn repaired_literal_in_a_guard_becomes_a_bounded_repair_variable() {
    let guard = Expression::LessThan(bx(var(0)), bx(call("repair", vec![num(5)])), sp());
    let mut m = model_with(vec![bounded("x", 0, 10, num(0))], guard, num(0));
    let ranges = VariableRanges::from_model(&m);
    let c = wire_up_repairs(&mut m, &ranges).unwrap();
    assert_eq!(c.first_variable_index, 1);
    // the other side reaches 0..=10, so the literal may range over 0..=11
    assert_eq!(c.repair_variables, vec![RepairVariable::Integer { min: 0, max: 11 }]);
    assert_eq!(c.repairs.len(), 1);
    match &c.repairs[0].kind {
        RepairKind::IntegerReplacement { variable, original_value } => {
            assert_eq!(variable.index, 1);
            assert_eq!(*original_value, 5);
        },
        _ => panic!("expected an integer replacement"),
    }
    assert_eq!(c.repairs[0].cost_function, CostFunction::Linear { factor: CostValue::Float(ONE_BITS) });
    match guard_of(&m) {
        Expression::LessThan(a, b, _) => {
            assert!(matches!(**a, Expression::VarOrConst(r, _) if r.index == 0));
            assert!(matches!(**b, Expression::VarOrConst(r, _) if r.index == 1));
        },
        _ => panic!("the guard keeps its comparison"),
    }
}

#[test]
fn repaired_assignment_takes_the_range_of_its_target() {
    // x' = repair(1) + 2 with x in 0..=10: the repaired literal may range over -2..=8
    let value = Expression::Addition(bx(call("repair", vec![num(1), call("uniform_costs", vec![num(3)])])), bx(num(2)), sp());
    let mut m = model_with(vec![bounded("x", 0, 10, num(0))], Expression::Bool(true, sp()), value);
    let ranges = VariableRanges::from_model(&m);
    let c = wire_up_repairs(&mut m, &ranges).unwrap();
    assert_eq!(c.repairs.len(), 1);
    assert_eq!(c.repairs[0].cost_function, CostFunction::Uniform { costs: CostValue::Int(3) });
    assert_eq!(c.repair_variables, vec![RepairVariable::Integer { min: -2, max: 8 }]);
    assert!(matches!(value_of(&m), Expression::Addition(a, _, _) if matches!(**a, Expression::VarOrConst(r, _) if r.index == 1)));

    // with no constant beside it, the repaired literal has no known bounds
    let value = Expression::Addition(bx(var(0)), bx(call("repair", vec![num(1)])), sp());
    let mut m = model_with(vec![bounded("x", 0, 10, num(0))], Expression::Bool(true, sp()), value);
    assert_eq!(wire_up_repairs(&mut m, &ranges).err(), Some(RepairError::UnknownIntegerBounds));
}

#[test]
fn repaired_min_call_becomes_a_choice_between_min_and_max() {
    let value = call("repair", vec![call("min", vec![var(0), num(3)])]);
    let mut m = model_with(vec![bounded("x", 0, 10, num(0))], Expression::Bool(true, sp()), value);
    let ranges = VariableRanges::from_model(&m);
    let c = wire_up_repairs(&mut m, &ranges).unwrap();
    assert_eq!(c.repair_variables, vec![RepairVariable::Integer { min: 0, max: 1 }]);
    match &c.repairs[0].kind {
        RepairKind::FunctionCall { function_type_variable, args, original_function } => {
            assert_eq!(function_type_variable.index, 1);
            assert_eq!(args.len(), 2);
            assert_eq!(*original_function, FunctionKind::Min);
        },
        _ => panic!("expected a function call repair"),
    }
    assert_eq!(c.repairs[0].cost_function, CostFunction::Uniform { costs: CostValue::Float(ONE_BITS) });
    match value_of(&m) {
        Expression::Ternary(g, a, b, _) => {
            assert!(matches!(**g, Expression::Equals(..)));
            assert!(matches!(&**a, Expression::Function(n, args, _) if n.name == "min" && args.len() == 2));
            assert!(matches!(&**b, Expression::Function(n, args, _) if n.name == "max" && args.len() == 2));
        },
        _ => panic!("expected a ternary"),
    }
}

#[test]
fn grouped_repairs_share_one_variable() {
    let group = || call("grouped", vec![call("g", vec![])]);
    let guard = Expression::LessThan(bx(var(0)), bx(call("repair", vec![num(5), group()])), sp());
    let value = Expression::Addition(bx(call("repair", vec![num(1), group()])), bx(num(2)), sp());
    let mut m = model_with(vec![bounded("x", 0, 10, num(0))], guard, value);
    let ranges = VariableRanges::from_model(&m);
    let c = wire_up_repairs(&mut m, &ranges).unwrap();
    assert_eq!(c.repair_variables.len(), 1);
    assert_eq!(c.repairs.len(), 2);
    assert_eq!(c.name_representatives.len(), 1);
    assert_eq!(c.name_representatives[0].0, "g");
}

#[test]
fn repairing_something_else_than_a_literal_or_min_max_fails() {
    let value = call("repair", vec![var(0)]);
    let mut m = model_with(vec![bounded("x", 0, 10, num(0))], Expression::Bool(true, sp()), value);
    let ranges = VariableRanges::from_model(&m);
    assert_eq!(wire_up_repairs(&mut m, &ranges).err(), Some(RepairError::UnsupportedRepairTarget));

    let value = call("repair", vec![call("floor", vec![var(0)])]);
    let mut m = model_with(vec![bounded("x", 0, 10, num(0))], Expression::Bool(true, sp()), value);
    assert_eq!(wire_up_repairs(&mut m, &ranges).err(), Some(RepairError::UnsupportedRepairFunction));

    let value = call("repair", vec![]);
    let mut m = model_with(vec![bounded("x", 0, 10, num(0))], Expression::Bool(true, sp()), value);
    assert_eq!(wire_up_repairs(&mut m, &ranges).err(), Some(RepairError::MissingRepairTarget));
}

#[test]
fn repaired_literal_without_integer_bounds_fails() {
    // a conjunction gives its operands no known bounds
    let guard = Expression::Conjunction(bx(Expression::Bool(true, sp())), bx(call("repair", vec![num(5)])), sp());
    let mut m = model_with(vec![bounded("x", 0, 10, num(0))], guard, num(0));
    let ranges = VariableRanges::from_model(&m);
    assert_eq!(wire_up_repairs(&mut m, &ranges).err(), Some(RepairError::UnknownIntegerBounds));
}

#[test]
fn repair_parameters_are_read_from_calls() {
    let p = RepairParameters::from_function_arguments(&[
        call("grouped", vec![call("g", vec![])]),
        call("max", vec![num(9)]),
        call("linear_costs", vec![num(4)]),
        call("sees", vec![var(0), var(2)]),
    ])
    .unwrap();
    assert_eq!(p.grouped, Some("g".to_string()));
    assert_eq!(p.minimum, None);
    assert_eq!(p.maximum, Some(9));
    assert_eq!(p.costs, Some(CostFunction::Linear { factor: CostValue::Int(4) }));
    match p.visibility {
        Some(Visibility::Sees(v)) => assert_eq!(v.iter().map(|r| r.index).collect::<Vec<_>>(), vec![0, 2]),
        _ => panic!("expected `sees`"),
    }
    let p = RepairParameters::from_function_arguments(&[call("min", vec![num(2)])]).unwrap();
    assert_eq!(p.minimum, Some(2));
}

#[test]
fn repair_parameter_errors() {
    let e = |args: Vec<Expression>| RepairParameters::from_function_arguments(&args).err();
    assert_eq!(e(vec![num(1)]), Some(RepairError::ParameterNotACall));
    assert_eq!(e(vec![call("colour", vec![])]), Some(RepairError::UnknownParameter));
    assert_eq!(e(vec![call("grouped", vec![])]), Some(RepairError::WrongParameterArity));
    assert_eq!(e(vec![call("grouped", vec![num(1)])]), Some(RepairError::GroupNameNotACall));
    assert_eq!(e(vec![call("grouped", vec![call("g", vec![num(1)])])]), Some(RepairError::GroupNameWithArguments));
    assert_eq!(
        e(vec![call("grouped", vec![call("g", vec![])]), call("grouped", vec![call("h", vec![])])]),
        Some(RepairError::GroupedTwice)
    );
    assert_eq!(e(vec![call("min", vec![num(1)]), call("min", vec![num(2)])]), Some(RepairError::MinimumTwice));
    // `max` after `min` is refused as a second bound
    assert_eq!(e(vec![call("min", vec![num(1)]), call("max", vec![num(2)])]), Some(RepairError::MaximumTwice));
    assert_eq!(
        e(vec![call("uniform_costs", vec![num(1)]), call("linear_costs", vec![num(2)])]),
        Some(RepairError::CostsTwice)
    );
    assert_eq!(e(vec![call("sees", vec![var(0)]), call("hidden", vec![var(1)])]), Some(RepairError::VisibilityTwice));
    assert_eq!(e(vec![call("hidden", vec![num(1)])]), Some(RepairError::VisibilityNotAVariable));
}

#[test]
fn cost_functions_are_read_and_counted() {
    assert_eq!(
        CostFunction::from_expression(&call("uniform_costs", vec![num(2)])),
        Ok(CostFunction::Uniform { costs: CostValue::Int(2) })
    );
    assert_eq!(CostFunction::from_expression(&call("uniform_costs", vec![])), Err(RepairError::MissingCostValue));
    assert_eq!(CostFunction::from_expression(&call("linear_costs", vec![var(0)])), Err(RepairError::InvalidCostValue));
    assert_eq!(CostFunction::from_expression(&call("square_costs", vec![num(1)])), Err(RepairError::UnknownCostFunction));
    assert_eq!(CostFunction::from_expression(&num(1)), Err(RepairError::InvalidCostSpecifier));
    let linear = CostFunction::Linear { factor: CostValue::Int(1) };
    let uniform = CostFunction::Uniform { costs: CostValue::Int(1) };
    assert_eq!(linear.cost_units(3, -4), 7);
    assert_eq!(linear.cost_units(i64::MIN, i64::MAX), u64::MAX);
    assert_eq!(uniform.cost_units(3, -4), 1);
    assert_eq!(uniform.cost_units(3, 3), 0);
}

#[test]
fn constants_are_evaluated_through_minus() {
    assert_eq!(evaluate_const(&Expression::Minus(bx(num(4)), sp())).int_value(), Some(-4));
    assert_eq!(evaluate_const(&Expression::Bool(true, sp())).bool(), Some(true));
    assert!(matches!(evaluate_const(&var(0)), ConstEvaluationResult::Variable));
    assert!(matches!(evaluate_const(&Expression::Addition(bx(num(1)), bx(num(2)), sp())), ConstEvaluationResult::Variable));
}

#[test]
fn model_without_repair_calls_is_left_as_it_is() {
    let guard = Expression::LessThan(bx(var(0)), bx(num(5)), sp());
    let value = Expression::Addition(bx(var(0)), bx(num(1)), sp());
    let mut m = model_with(vec![bounded("x", 0, 10, num(0))], guard, value);
    let ranges = VariableRanges::from_model(&m);
    let c = wire_up_repairs(&mut m, &ranges).unwrap();
    assert!(c.repairs.is_empty());
    assert!(c.repair_variables.is_empty());
    assert!(matches!(guard_of(&m), Expression::LessThan(a, b, _)
        if matches!(**a, Expression::VarOrConst(r, _) if r.index == 0) && matches!(**b, Expression::Int(5, _))));
    assert!(matches!(value_of(&m), Expression::Addition(a, b, _)
        if matches!(**a, Expression::VarOrConst(r, _) if r.index == 0) && matches!(**b, Expression::Int(1, _))));
}
