use model_repair::applied_repairs::{AppliedRepair, AppliedRepairCollection, Cost, FixType, Replacement};
use model_repair::prism::expression::{Expression, Span, VariableReference};
use model_repair::prism::output::VariableReferenceToPrismIndex;
use model_repair::prism::results::{FeasibleCombination, OutputError};
use model_repair::repairs::types::{CostFunction, CostValue, FunctionKind, Repair, RepairCollection, RepairKind, RepairVariable};

fn sp() -> Span {
    Span::new(0, 0)
}

fn collection() -> RepairCollection {
    RepairCollection {
        first_variable_index: 1,
        repair_variables: vec![RepairVariable::Integer { min: 0, max: 10 }, RepairVariable::Integer { min: 0, max: 1 }],
        repairs: vec![
            Repair {
                original_span: Span::new(4, 5),
                kind: RepairKind::IntegerReplacement { variable: VariableReference::new(1), original_value: 5 },
                cost_function: CostFunction::Linear { factor: CostValue::Int(2) },
            },
            Repair {
                original_span: Span::new(10, 20),
                kind: RepairKind::FunctionCall {
                    function_type_variable: VariableReference::new(2),
                    args: vec![Expression::VarOrConst(VariableReference::new(0), sp()), Expression::Int(3, sp())],
                    original_function: FunctionKind::Min,
                },
                cost_function: CostFunction::Uniform { costs: CostValue::Int(1) },
            },
        ],
        name_representatives: Vec::new(),
    }
}

fn combination(values: &[&str]) -> FeasibleCombination {
    FeasibleCombination { variables: values.iter().map(|v| v.to_string()).collect(), value: "1".to_string() }
}

#[test]
fn chosen_values_become_fixes_and_costs() {
    let order = VariableReferenceToPrismIndex { order: vec![0, 1, 2] };
    let a = AppliedRepair::from_feasible_combination(&combination(&["3", "8", "1"]), &order, &collection()).ok().unwrap();
    assert_eq!(a.costs, vec![Cost { units: 3, rate: CostValue::Int(2) }, Cost { units: 1, rate: CostValue::Int(1) }]);
    assert_eq!(a.fixes.len(), 2);
    assert_eq!(a.fixes[0].location, Span::new(4, 5));
    assert_eq!(a.fixes[0].fix_type, FixType::Fixed);
    assert!(matches!(&a.fixes[0].replace_by, Replacement::Value(v) if v == "8"));
    assert_eq!(a.fixes[1].fix_type, FixType::Fixed);
    assert!(matches!(&a.fixes[1].replace_by, Replacement::Call { function, args } if function == "max" && args.len() == 2));
}

#[test]
fn unchanged_values_cost_nothing() {
    let order = VariableReferenceToPrismIndex { order: vec![0, 1, 2] };
    let a = AppliedRepair::from_feasible_combination(&combination(&["3", "5", "0"]), &order, &collection()).ok().unwrap();
    assert_eq!(a.costs, vec![Cost { units: 0, rate: CostValue::Int(2) }, Cost { units: 0, rate: CostValue::Int(1) }]);
    assert_eq!(a.fixes[0].fix_type, FixType::NoChange);
    assert_eq!(a.fixes[1].fix_type, FixType::NoChange);
    assert!(matches!(&a.fixes[1].replace_by, Replacement::Call { function, .. } if function == "min"));
}

#[test]
fn unusable_values_are_refused() {
    let order = VariableReferenceToPrismIndex { order: vec![0, 1, 2] };
    let err = |vals: &[&str]| AppliedRepair::from_feasible_combination(&combination(vals), &order, &collection()).err();
    assert_eq!(err(&["3", "x", "0"]), Some(OutputError::NotAnInteger));
    assert_eq!(err(&["3", "4", "2"]), Some(OutputError::UnknownFunctionChoice));
    let short = VariableReferenceToPrismIndex { order: vec![0, 1] };
    assert_eq!(
        AppliedRepair::from_feasible_combination(&combination(&["3", "4"]), &short, &collection()).err(),
        Some(OutputError::MissingValue)
    );
}

#[test]
fn every_combination_gives_one_variant() {
    let order = VariableReferenceToPrismIndex { order: vec![0, 1, 2] };
    let all = AppliedRepairCollection::from_feasible_combinations(
        vec![combination(&["3", "8", "1"]), combination(&["3", "5", "0"])],
        &order,
        &collection(),
    )
    .ok()
    .unwrap();
    assert_eq!(all.applied_repairs.len(), 2);
    assert_eq!(all.applied_repairs[1].costs[0].units, 0);
    let bad = AppliedRepairCollection::from_feasible_combinations(
        vec![combination(&["3", "8", "1"]), combination(&["3", "8", "7"])],
        &order,
        &collection(),
    );
    assert_eq!(bad.err(), Some(OutputError::UnknownFunctionChoice));
}
