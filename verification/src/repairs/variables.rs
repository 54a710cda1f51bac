//! Declaring the repair variables in the model that they repair.
use vstd::prelude::*;
use crate::prism::expression::{ExprView, Expression, Identifier, Span};
use crate::prism::model::{Attributes, Model, ModelView, RangeView, VariableInfo, VariableRange, VariableScope, VariableView};
use crate::repairs::error::RepairError;
use crate::repairs::types::{RepairCollection, RepairVariable};
use crate::text::{append_decimal, append_str, decimal, str_eq_string, string_from};

verus! {

/// The name of repair variable `index`: `repair_var_<index>`.
pub open spec fn repair_variable_name(index: nat) -> Seq<char> {
    "repair_var_"@ + decimal(index)
}

/// The declaration of repair variable `index`: a global Boolean, or a global integer between
/// its bounds, without initial value, placed at the span of the model.
pub open spec fn repair_variable_view(index: nat, v: RepairVariable, span: Span) -> VariableView {
    VariableView {
        name: (repair_variable_name(index), span),
        range: match v {
            RepairVariable::Bool => RangeView::Boolean { span },
            RepairVariable::Integer { min, max } => RangeView::BoundedInt {
                min: ExprView::Int(min, span),
                max: ExprView::Int(max, span),
                span,
            },
        },
        is_constant: false,
        scope: VariableScope::GlobalVariable,
        initial_value: None,
        attributes: Seq::empty(),
        span,
    }
}

/// The first repair variable among the first `n` whose name a variable of the model has.
pub open spec fn taken_name(vs: Seq<VariableView>, n: nat) -> Option<usize>
    decreases n,
{
    if n == 0 {
        None
    } else {
        match taken_name(vs, (n - 1) as nat) {
            Some(i) => Some(i),
            None => if exists|k: int| 0 <= k < vs.len() && #[trigger] vs[k].name.0 == repair_variable_name((n - 1) as nat) {
                Some((n - 1) as usize)
            } else {
                None
            },
        }
    }
}

fn repair_variable_info(index: usize, v: RepairVariable, span: Span) -> (r: VariableInfo)
    ensures
        r@ == repair_variable_view(index as nat, v, span),
{
    let mut name: Vec<char> = Vec::new();
    append_str(&mut name, "repair_var_");
    append_decimal(&mut name, index as u64);
    let range = match v {
        RepairVariable::Bool => VariableRange::Boolean { span },
        RepairVariable::Integer { min, max } => VariableRange::BoundedInt {
            min: Expression::Int(min, span),
            max: Expression::Int(max, span),
            span,
        },
    };
    let r = VariableInfo {
        name: Identifier { name: string_from(&name), span },
        range,
        is_constant: false,
        scope: VariableScope::GlobalVariable,
        initial_value: None,
        attributes: Attributes::new(),
        span,
    };
    assert(r@.attributes =~= Seq::<(Seq<char>, bool)>::empty());
    assert(r@.name.0 =~= repair_variable_name(index as nat));
    r
}

fn has_variable_with_name(model: &Model, name: &String) -> (r: bool)
    ensures
        r == exists|k: int| 0 <= k < model@.variables.len() && #[trigger] model@.variables[k].name.0 == name@,
{
    let mut i: usize = 0;
    while i < model.variable_manager.variables.len()
        invariant
            i <= model@.variables.len(),
            forall|k: int| 0 <= k < i ==> #[trigger] model@.variables[k].name.0 != name@,
        decreases model.variable_manager.variables.len() - i,
    {
        if str_eq_string(name.as_str(), &model.variable_manager.variables[i].name.name) {
            assert(model@.variables[i as int].name.0 == name@);
            return true;
        }
        i += 1;
    }
    false
}

impl RepairCollection {
    /// Declares the repair variables in the model as `repair_var_0`, `repair_var_1`, ... in
    /// order, and empties the list of repair variables. Refused, with nothing changed, where the
    /// model already has a variable with one of these names. The model's initial statements are
    /// left as they are.
    pub fn add_variables_to_prism(&mut self, model: &mut Model) -> (r: Result<(), RepairError>)
        requires
            old(self).repair_variables@.len() <= u64::MAX,
        ensures
            match taken_name(old(model)@.variables, old(self).repair_variables@.len()) {
                Some(i) => r == Err::<(), RepairError>(RepairError::RepairVariableNameTaken { index: i })
                    && final(model)@ == old(model)@ && final(self)@ == old(self)@,
                None => r is Ok
                    && final(model)@ == (ModelView {
                        variables: old(model)@.variables + Seq::new(old(self).repair_variables@.len(),
                            |i: int| repair_variable_view(i as nat, old(self).repair_variables@[i], old(model)@.span)),
                        ..old(model)@
                    })
                    && final(self)@.repair_variables.len() == 0
                    && final(self).first_variable_index == old(self).first_variable_index
                    && final(self)@.repairs == old(self)@.repairs
                    && final(self)@.names == old(self)@.names,
            },
    {
        let ghost vs = model@.variables;
        let n = self.repair_variables.len();
        let mut i: usize = 0;
        while i < n
            invariant
                i <= n,
                n == self.repair_variables@.len(),
                n <= u64::MAX,
                vs == model@.variables,
                taken_name(vs, i as nat) is None,
            decreases n - i,
        {
            let mut name: Vec<char> = Vec::new();
            append_str(&mut name, "repair_var_");
            append_decimal(&mut name, i as u64);
            let text = string_from(&name);
            assert(text@ =~= repair_variable_name(i as nat));
            if has_variable_with_name(model, &text) {
                proof { lemma_taken_name_stays(vs, (i + 1) as nat, n as nat); }
                return Err(RepairError::RepairVariableNameTaken { index: i });
            }
            i += 1;
        }
        let span = model.span;
        let ghost added = Seq::new(n as nat, |i: int| repair_variable_view(i as nat, self.repair_variables@[i], span));
        let mut k: usize = 0;
        while k < n
            invariant
                k <= n,
                n == self.repair_variables@.len(),
                span == model.span,
                added == Seq::new(n as nat, |i: int| repair_variable_view(i as nat, self.repair_variables@[i], span)),
                model@ == (ModelView { variables: vs + added.subrange(0, k as int), ..old(model)@ }),
            decreases n - k,
        {
            let info = repair_variable_info(k, self.repair_variables[k], span);
            let ghost before = model@.variables;
            model.variable_manager.variables.push(info);
            assert(model@.variables =~= before.push(added[k as int]));
            assert(added.subrange(0, k + 1) =~= added.subrange(0, k as int).push(added[k as int]));
            k += 1;
        }
        assert(added.subrange(0, n as int) =~= added);
        self.repair_variables = Vec::new();
        Ok(())
    }
}

proof fn lemma_taken_name_stays(vs: Seq<VariableView>, i: nat, n: nat)
    requires
        i <= n,
        taken_name(vs, i) is Some,
    ensures
        taken_name(vs, n) == taken_name(vs, i),
    decreases n - i,
{
    if i < n {
        lemma_taken_name_stays(vs, i, (n - 1) as nat);
    }
}

} // verus!
