use model_repair::context::guards::{Constraint, GuardConstraints, VariableBounds, VariableConstraints};
use model_repair::context::permissible_bounds::PermissibleBounds;
use model_repair::context::variable_ranges::VariableRanges;
use model_repair::prism::expression::{Expression, Span, VariableReference};
use model_repair::repairs::error::RepairError;

fn sp() -> Span {
    Span::new(0, 0)
}

fn num(v: i64) -> Expression {
    Expression::Int(v, sp())
}

fn var(i: usize) -> Expression {
    Expression::VarOrConst(VariableReference::new(i), sp())
}

fn bx(e: Expression) -> Box<Expression> {
    Box::new(e)
}

fn and(a: Expression, b: Expression) -> Expression {
    Expression::Conjunction(bx(a), bx(b), sp())
}

fn bounds_of(g: &GuardConstraints, v: usize) -> Option<VariableBounds> {
    g.variables.iter().find(|(i, _)| *i == v).map(|(_, b)| *b)
}

#[test]
fn constraints_are_folded_into_bounds() {
    let mut c = VariableConstraints::with_constraint(Constraint::LessThan(10));
    c.constraints.push(Constraint::GreaterOrEqual(2));
    c.constraints.push(Constraint::LessOrEqual(12));
    assert_eq!(
        VariableBounds::from_variable_constraints(&c),
        VariableBounds { lower_bound: Some(2), upper_bound: Some(9) }
    );
    let c = VariableConstraints::with_constraint(Constraint::GreaterThan(4));
    assert_eq!(VariableBounds::from_variable_constraints(&c), VariableBounds { lower_bound: Some(5), upper_bound: None });
    let mut c = VariableConstraints::with_constraint(Constraint::LessThan(1));
    c.constraints.push(Constraint::Equals(7));
    assert_eq!(VariableBounds::from_variable_constraints(&c), VariableBounds { lower_bound: Some(7), upper_bound: Some(7) });
}

#[test]
fn guard_conjuncts_bound_their_variables() {
    // x < 5 & 1 <= x & y = 3 & (x > 100 | true)
    let guard = and(
        and(Expression::LessThan(bx(var(0)), bx(num(5)), sp()), Expression::LessOrEqual(bx(num(1)), bx(var(0)), sp())),
        and(
            Expression::Equals(bx(var(1)), bx(num(3)), sp()),
            Expression::Disjunction(bx(Expression::GreaterThan(bx(var(0)), bx(num(100)), sp())), bx(Expression::Bool(true, sp())), sp()),
        ),
    );
    let g = GuardConstraints::from_expression(&guard);
    assert_eq!(g.variables.len(), 2);
    assert_eq!(bounds_of(&g, 0), Some(VariableBounds { lower_bound: Some(1), upper_bound: Some(4) }));
    assert_eq!(bounds_of(&g, 1), Some(VariableBounds { lower_bound: Some(3), upper_bound: Some(3) }));

    let ranges = VariableRanges {
        bounds: vec![
            PermissibleBounds::IntegerRange { min: 0, max: 10 },
            PermissibleBounds::IntegerRange { min: 0, max: 2 },
            PermissibleBounds::Unknown,
        ],
    };
    let narrowed = g.apply_to_variable_ranges(&ranges).unwrap();
    assert_eq!(
        narrowed.bounds,
        vec![
            PermissibleBounds::IntegerRange { min: 1, max: 4 },
            PermissibleBounds::IntegerRange { min: 3, max: 2 },
            PermissibleBounds::Unknown,
        ]
    );
}

#[test]
fn bounding_a_variable_without_integer_range_fails() {
    let guard = and(Expression::LessThan(bx(var(2)), bx(num(5)), sp()), Expression::GreaterThan(bx(var(1)), bx(num(0)), sp()));
    let g = GuardConstraints::from_expression(&guard);
    let ranges = VariableRanges {
        bounds: vec![PermissibleBounds::IntegerRange { min: 0, max: 10 }, PermissibleBounds::Unknown, PermissibleBounds::Unknown],
    };
    assert_eq!(
        g.apply_to_variable_ranges(&ranges).err(),
        Some(RepairError::VariableWithoutIntegerBounds { variable: VariableReference::new(1) })
    );
}

#[test]
fn permissible_bounds_follow_integer_operations() {
    let b = PermissibleBounds::IntegerRange { min: 2, max: 9 };
    assert_eq!(b.apply_integer_operation(|v| 10 - v), PermissibleBounds::IntegerRange { min: 1, max: 8 });
    assert_eq!(b.apply_integer_operation_with_rounding(2), PermissibleBounds::IntegerRange { min: 1, max: 4 });
    assert_eq!(b.apply_integer_operation_with_rounding(-2), PermissibleBounds::IntegerRange { min: -4, max: -1 });
    assert_eq!(b.apply_numeric_negation(), PermissibleBounds::IntegerRange { min: -9, max: -2 });
    assert_eq!(PermissibleBounds::Unknown.apply_numeric_negation(), PermissibleBounds::Unknown);
    assert_eq!(b.min_int(), 2);
    assert_eq!(b.max_int(), 9);
    let mut c = b;
    c.add_min_int_constraint(4);
    c.add_max_int_constraint(7);
    assert_eq!(c, PermissibleBounds::IntegerRange { min: 4, max: 7 });
}
