use vstd::prelude::*;
use crate::context::permissible_bounds::PermissibleBounds;
use crate::prism::model::{Model, VariableRange};
use crate::repairs::repair_expression::{const_value, evaluate_const, ConstEvaluationResult};

verus! {

/// The permissible values of each variable of a model, by variable index.
pub struct VariableRanges {
    pub bounds: Vec<PermissibleBounds>,
}

/// The bounds a declared range gives: an integer range whose ends are integer constants, or
/// nothing known.
pub open spec fn declared_bounds(range: &VariableRange) -> PermissibleBounds {
    match range {
        VariableRange::BoundedInt { min, max, .. } => match (const_value(min@), const_value(max@)) {
            (ConstEvaluationResult::Int(a), ConstEvaluationResult::Int(b)) => PermissibleBounds::IntegerRange { min: a, max: b },
            _ => PermissibleBounds::Unknown,
        },
        _ => PermissibleBounds::Unknown,
    }
}

impl VariableRanges {
    /// The declared range of every variable of the model.
    pub fn from_model(model: &Model) -> (r: VariableRanges)
        ensures
            r.bounds@.len() == model.variable_manager.variables@.len(),
            forall|i: int| 0 <= i < r.bounds@.len() ==>
                #[trigger] r.bounds@[i] == declared_bounds(&model.variable_manager.variables@[i].range),
    {
        let mut bounds: Vec<PermissibleBounds> = Vec::new();
        let variables = &model.variable_manager.variables;
        let mut i: usize = 0;
        while i < variables.len()
            invariant
                i <= variables@.len(),
                bounds@.len() == i,
                forall|j: int| 0 <= j < i ==> #[trigger] bounds@[j] == declared_bounds(&variables@[j].range),
            decreases variables.len() - i,
        {
            let b = match &variables[i].range {
                VariableRange::BoundedInt { min, max, .. } => {
                    let min = evaluate_const(min).int_value();
                    let max = evaluate_const(max).int_value();
                    match (min, max) {
                        (Some(min), Some(max)) => PermissibleBounds::IntegerRange { min, max },
                        _ => PermissibleBounds::Unknown,
                    }
                },
                _ => PermissibleBounds::Unknown,
            };
            bounds.push(b);
            i += 1;
        }
        VariableRanges { bounds }
    }
}

} // verus!
