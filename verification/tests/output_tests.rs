use model_repair::context::permissible_bounds::PermissibleBounds;
use model_repair::engine::checking::{read_checking_output, relaxed_non_determinism, BoundOperator, CheckingError, NonDeterminismKind};
use model_repair::engine::tasks::CheckingResult;
use model_repair::prism::results::{isolate_results, parse_results, to_feasible_combination, OutputError};
use model_repair::prism::expression::{Identifier, Span, VariableReference};
use model_repair::prism::model::{Attributes, Model, Module, VariableInfo, VariableManager, VariableRange, VariableScope};
use model_repair::prism::output::{OutputVariableValues, VariableReferenceToPrismIndex};
use model_repair::text::i64_to_string;

fn dashes() -> String {
    "-".repeat(69)
}

#[test]
fn numbers_are_written_as_to_string_does() {
    assert_eq!(i64_to_string(-42), "-42");
    assert_eq!(i64_to_string(0), "0");
    assert_eq!(i64_to_string(i64::MIN), i64::MIN.to_string());
    assert_eq!(i64_to_string(1234567), "1234567");
}

#[test]
fn result_section_is_isolated() {
    let out = "noise\nResults (non-zero only) for filter \"init\":\n  0:(1,2)=0.5\n1:(3,4)=1 \nRange of values over initial states: x";
    assert_eq!(isolate_results(out), Some("0:(1,2)=0.5\n1:(3,4)=1".to_string()));
    assert_eq!(isolate_results("nothing"), None);
}

#[test]
fn result_lines_are_read_as_the_model_checker_writes_them() {
    let c = to_feasible_combination("0:(1,2)=0.5").ok().unwrap();
    assert_eq!(c.variables, vec!["1".to_string(), "2)=0.".to_string()]);
    assert_eq!(c.value, "0.5");
    assert_eq!(to_feasible_combination("(1,2)=3").err(), Some(OutputError::MissingColon));
    assert_eq!(to_feasible_combination("0:(1,2)").err(), Some(OutputError::MissingEquals));
    assert!(parse_results("(all zero)").ok().unwrap().is_empty());
    assert_eq!(parse_results("0:(1)=2\n1:(3)=4").ok().unwrap().len(), 2);
}

#[test]
fn checking_output_gives_one_result_per_property() {
    let out = format!("intro{}Result: true (property holds){}x\nResult: 0.25\n{}Note: There were 2 warnings", dashes(), dashes(), dashes());
    let r = read_checking_output(&out, 2).ok().unwrap();
    assert!(matches!(r[0], CheckingResult::Bool(true)));
    assert!(matches!(&r[1], CheckingResult::Value(v) if v == "0.25"));
    assert_eq!(read_checking_output(&out, 3).err(), Some(CheckingError::SectionCount { expected: 4, found: 3 }));
    let missing = format!("intro{}nothing here", dashes());
    assert_eq!(read_checking_output(&missing, 1).err(), Some(CheckingError::MissingResult { section: 1 }));
}

#[test]
fn bounds_on_minimum_and_maximum_are_relaxed_or_refused() {
    let min = Some(NonDeterminismKind::Minimise);
    let max = Some(NonDeterminismKind::Maximise);
    assert_eq!(relaxed_non_determinism(min, BoundOperator::GreaterThan), Ok(None));
    assert_eq!(relaxed_non_determinism(max, BoundOperator::LessOrEqual), Ok(None));
    assert_eq!(relaxed_non_determinism(None, BoundOperator::LessThan), Ok(None));
    assert_eq!(relaxed_non_determinism(min, BoundOperator::LessThan), Err(CheckingError::MinimumBelow));
    assert_eq!(relaxed_non_determinism(min, BoundOperator::LessOrEqual), Err(CheckingError::MinimumAtMost));
    assert_eq!(relaxed_non_determinism(max, BoundOperator::GreaterThan), Err(CheckingError::MaximumAbove));
    assert_eq!(relaxed_non_determinism(max, BoundOperator::GreaterOrEqual), Err(CheckingError::MaximumAtLeast));
}

#[test]
fn integer_bounds_follow_operations() {
    let mut b = PermissibleBounds::IntegerRange { min: 0, max: 10 };
    b.add_min_int_constraint(3);
    b.add_max_int_constraint(20);
    assert_eq!(b, PermissibleBounds::IntegerRange { min: 3, max: 10 });
    assert_eq!((b.min_int(), b.max_int()), (3, 10));
    assert_eq!(b.apply_numeric_negation(), PermissibleBounds::IntegerRange { min: -10, max: -3 });
    assert_eq!(b.apply_integer_operation_with_rounding(4), PermissibleBounds::IntegerRange { min: 1, max: 2 });
    assert_eq!(b.apply_integer_operation_with_rounding(-4), PermissibleBounds::IntegerRange { min: -2, max: -1 });
    assert_eq!(PermissibleBounds::Unknown.apply_numeric_negation(), PermissibleBounds::Unknown);
}

fn variable(name: &str, scope: VariableScope, is_constant: bool) -> VariableInfo {
    VariableInfo {
        name: Identifier::new(name.to_string(), Span::new(0, 0)),
        range: VariableRange::Boolean { span: Span::new(0, 0) },
        is_constant,
        scope,
        initial_value: None,
        attributes: Attributes::new(),
        span: Span::new(0, 0),
    }
}

fn module(name: &str) -> Module {
    Module { name: Identifier::new(name.to_string(), Span::new(0, 0)), commands: Vec::new(), attributes: Attributes::new(), span: Span::new(0, 0) }
}

#[test]
fn model_checker_order_lists_globals_then_locals_of_each_module() {
    let m = Model {
        variable_manager: VariableManager {
            variables: vec![
                variable("x", VariableScope::GlobalVariable, false),
                variable("c", VariableScope::GlobalVariable, true),
                variable("y", VariableScope::LocalVariable { module_index: 1 }, false),
                variable("z", VariableScope::LocalVariable { module_index: 0 }, false),
                variable("w", VariableScope::GlobalVariable, false),
            ],
        },
        modules: vec![module("a"), module("b")],
        formulas: Vec::new(),
        labels: Vec::new(),
        span: Span::new(0, 0),
    };
    let order = VariableReferenceToPrismIndex::from_model(&m);
    assert_eq!(order.order, vec![0, 4, 3, 2]);
    assert_eq!(order.ref_to_index(&VariableReference::new(3)), 2);
    let values = vec!["1".to_string(), "true".to_string(), "-3".to_string(), "7".to_string()];
    let read = OutputVariableValues::new(&values, &order);
    assert_eq!(read.get_int(VariableReference::new(2)), Ok(7));
    assert_eq!(read.get_int(VariableReference::new(3)), Ok(-3));
    assert_eq!(read.get_bool(VariableReference::new(4)), Ok(true));
    assert!(read.lookup(VariableReference::new(1)).is_none());
}

#[test]
fn results_give_one_combination_per_line() {
    let text = "0:(1,2)=0.5\n1:(3,4)=1\n2:(5,6)=0.25";
    let all = parse_results(text).ok().unwrap();
    assert_eq!(all.len(), text.lines().count());
    for (k, line) in text.lines().enumerate() {
        let one = to_feasible_combination(line).ok().unwrap();
        assert_eq!(all[k].variables, one.variables);
        assert_eq!(all[k].value, one.value);
    }
    assert_eq!(parse_results("0:(1)=2\nbroken\n1:(3)=4").err(), Some(OutputError::MissingColon));
    assert!(parse_results("(all zero)").ok().unwrap().is_empty());
}
