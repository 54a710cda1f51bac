use model_repair::model_manipulation::{
    CommandComponent, ExpressionLocation, SubExpression, UpdateComponent, VariableComponent,
};
use model_repair::prism::expression::{Expression, Identifier, Span, VariableReference};
use model_repair::prism::model::{
    Assignment, Attributes, Command, Formula, Model, Module, Update, VariableInfo, VariableManager,
    VariableRange, VariableScope,
};

fn sp() -> Span {
    Span::new(0, 0)
}

fn num(v: i64) -> Expression {
    Expression::Int(v, sp())
}

fn add(a: Expression, b: Expression) -> Expression {
    Expression::Addition(Box::new(a), Box::new(b), sp())
}

fn show(e: &Expression) -> String {
    match e {
        Expression::Int(v, _) => v.to_string(),
        Expression::Bool(b, _) => b.to_string(),
        Expression::VarOrConst(r, _) => format!("v{}", r.index),
        Expression::Addition(a, b, _) => format!("({}+{})", show(a), show(b)),
        Expression::Minus(a, _) => format!("-{}", show(a)),
        Expression::Function(n, args, _) => {
            format!("{}({})", n.name, args.iter().map(show).collect::<Vec<_>>().join(","))
        },
        _ => "?".to_string(),
    }
}

fn path(s: &SubExpression) -> Vec<usize> {
    match s {
        SubExpression::Here => Vec::new(),
        SubExpression::Child { index, child_navigation } => {
            let mut v = vec![*index];
            v.extend(path(child_navigation));
            v
        },
    }
}

#[test]
fn subexpressions_are_reached_by_child_indices() {
    let e = add(add(num(1), num(2)), num(3));
    assert_eq!(e.child_count(), 2);
    assert_eq!(show(e.child(0).unwrap()), "(1+2)");
    assert!(e.child(2).is_none());
    let way = SubExpression::child_then_here(0).and_then(SubExpression::child_then_here(1));
    assert_eq!(path(&way), vec![0, 1]);
    assert_eq!(show(e.get(&way).unwrap()), "2");
    assert_eq!(show(e.get(&SubExpression::Here).unwrap()), "((1+2)+3)");
    assert!(e.get(&SubExpression::child_then_here(0).and_then(SubExpression::child_then_here(5))).is_none());
}

#[test]
fn replacing_then_reading_gives_the_replacement() {
    let mut e = add(add(num(1), num(2)), num(3));
    let way = SubExpression::child_then_here(0).and_then(SubExpression::child_then_here(1));
    e.replace(&way, num(9));
    assert_eq!(show(&e), "((1+9)+3)");
    assert_eq!(show(e.get(&way).unwrap()), "9");
    e.replace(&SubExpression::Here, num(4));
    assert_eq!(show(&e), "4");
}

#[test]
fn exploring_lists_subexpressions_depth_first() {
    let e = add(add(num(1), num(2)), Expression::Minus(Box::new(num(3)), sp()));
    let seen: Vec<(String, Vec<usize>)> = e.explore().iter().map(|(x, s)| (show(x), path(s))).collect();
    assert_eq!(
        seen,
        vec![
            ("((1+2)+-3)".to_string(), vec![]),
            ("(1+2)".to_string(), vec![0]),
            ("1".to_string(), vec![0]),
            ("2".to_string(), vec![1]),
            ("-3".to_string(), vec![1]),
            ("3".to_string(), vec![0]),
        ]
    );
    let call = Expression::Function(Identifier::new("f".to_string(), sp()), vec![num(1), add(num(2), num(3))], sp());
    let seen: Vec<(String, Vec<usize>)> = call.explore().iter().map(|(x, s)| (show(x), path(s))).collect();
    assert_eq!(seen[1], ("1".to_string(), vec![0]));
    assert_eq!(seen[2], ("(2+3)".to_string(), vec![1]));
    assert_eq!(seen[3], ("2".to_string(), vec![0]));
}

#[test]
fn expressions_of_a_model_are_found_by_location() {
    let v = VariableInfo {
        name: Identifier::new("x".to_string(), sp()),
        range: VariableRange::Boolean { span: sp() },
        is_constant: false,
        scope: VariableScope::GlobalVariable,
        initial_value: Some(num(5)),
        attributes: Attributes::new(),
        span: sp(),
    };
    let c = Command {
        action: None,
        guard: Expression::Bool(true, sp()),
        updates: vec![Update {
            probability: num(1),
            assignments: vec![Assignment { target: VariableReference::new(0), value: num(7), span: sp() }],
            span: sp(),
        }],
        span: sp(),
    };
    let m = Model {
        variable_manager: VariableManager { variables: vec![v] },
        modules: vec![Module { name: Identifier::new("m".to_string(), sp()), commands: vec![c], attributes: Attributes::new(), span: sp() }],
        formulas: vec![Formula { name: Identifier::new("f".to_string(), sp()), condition: num(2) }],
        labels: Vec::new(),
        span: sp(),
    };
    let at = |l: ExpressionLocation| m.get_expression(&l).map(show);
    assert_eq!(at(ExpressionLocation::Formula { index: 0 }), Some("2".to_string()));
    assert_eq!(at(ExpressionLocation::Label { index: 0 }), None);
    assert_eq!(
        at(ExpressionLocation::VariableDeclaration { reference: VariableReference::new(0), component: VariableComponent::InitialValue }),
        Some("5".to_string())
    );
    assert_eq!(
        at(ExpressionLocation::Command { module_index: 0, command_index: 0, component: CommandComponent::Guard }),
        Some("true".to_string())
    );
    assert_eq!(
        at(ExpressionLocation::Command {
            module_index: 0,
            command_index: 0,
            component: CommandComponent::Update { index: 0, component: UpdateComponent::Assignment { index: 0 } },
        }),
        Some("7".to_string())
    );
    assert_eq!(
        at(ExpressionLocation::Command {
            module_index: 0,
            command_index: 0,
            component: CommandComponent::Update { index: 0, component: UpdateComponent::Probability },
        }),
        Some("1".to_string())
    );
}

#[test]
fn added_flags_are_set_and_not_added_twice() {
    let mut a = Attributes::new();
    assert!(!a.is_flag_set("fixed"));
    assert_eq!(a.add_flag("fixed"), Ok(()));
    assert!(a.is_flag_set("fixed"));
    assert!(a.contains("fixed"));
    assert!(!a.is_flag_set("hidden"));
    assert_eq!(a.add_flag("fixed"), Err(()));
    assert_eq!(a.list.len(), 1);
    a.push_flag("hidden");
    assert!(a.is_flag_set("hidden"));
    assert!(a.is_flag_set("fixed"));
}

#[test]
fn replacing_leaves_other_ways_unchanged() {
    let mut e = add(add(num(1), num(2)), add(num(3), num(4)));
    let way = SubExpression::child_then_here(0).and_then(SubExpression::child_then_here(1));
    e.replace(&way, num(9));
    let first = SubExpression::child_then_here(0).and_then(SubExpression::child_then_here(0));
    let right = SubExpression::child_then_here(1);
    let right_left = SubExpression::child_then_here(1).and_then(SubExpression::child_then_here(0));
    assert_eq!(show(e.get(&first).unwrap()), "1");
    assert_eq!(show(e.get(&right).unwrap()), "(3+4)");
    assert_eq!(show(e.get(&right_left).unwrap()), "3");
    assert_eq!(show(e.get(&way).unwrap()), "9");
}
