//! Copies of models and of their parts that keep every view.
use vstd::prelude::*;
use crate::prism::expression::Identifier;
use crate::prism::model::{
    Assignment, Attribute, Attributes, Command, Formula, Label, Model, Module, Update,
    VariableInfo, VariableManager, VariableRange,
};

verus! {

impl Clone for Attribute {
    fn clone(&self) -> (res: Self)
        ensures
            res@ == self@,
    {
        Attribute { name: self.name.clone(), is_flag: self.is_flag }
    }
}

impl Clone for Attributes {
    fn clone(&self) -> (res: Self)
        ensures
            res@ == self@,
    {
        let mut list: Vec<Attribute> = Vec::new();
        let mut i: usize = 0;
        while i < self.list.len()
            invariant
                i <= self.list@.len(),
                list@.len() == i,
                forall|j: int| 0 <= j < i ==> #[trigger] list@[j]@ == self.list@[j]@,
            decreases self.list.len() - i,
        {
            list.push(self.list[i].clone());
            i += 1;
        }
        let r = Attributes { list };
        assert(r@ =~= self@);
        r
    }
}

impl Clone for VariableRange {
    fn clone(&self) -> (res: Self)
        ensures
            res@ == self@,
    {
        match self {
            VariableRange::BoundedInt { min, max, span } => VariableRange::BoundedInt { min: min.clone(), max: max.clone(), span: *span },
            VariableRange::UnboundedInt { span } => VariableRange::UnboundedInt { span: *span },
            VariableRange::Boolean { span } => VariableRange::Boolean { span: *span },
            VariableRange::Float { span } => VariableRange::Float { span: *span },
        }
    }
}

impl Clone for VariableInfo {
    fn clone(&self) -> (res: Self)
        ensures
            res@ == self@,
    {
        let initial_value = match &self.initial_value {
            Some(e) => Some(e.clone()),
            None => None,
        };
        VariableInfo {
            name: self.name.clone(),
            range: self.range.clone(),
            is_constant: self.is_constant,
            scope: self.scope,
            initial_value,
            attributes: self.attributes.clone(),
            span: self.span,
        }
    }
}

impl Clone for VariableManager {
    fn clone(&self) -> (res: Self)
        ensures
            res@ == self@,
    {
        let mut variables: Vec<VariableInfo> = Vec::new();
        let mut i: usize = 0;
        while i < self.variables.len()
            invariant
                i <= self.variables@.len(),
                variables@.len() == i,
                forall|j: int| 0 <= j < i ==> #[trigger] variables@[j]@ == self.variables@[j]@,
            decreases self.variables.len() - i,
        {
            variables.push(self.variables[i].clone());
            i += 1;
        }
        let r = VariableManager { variables };
        assert(r@ =~= self@);
        r
    }
}

impl Clone for Assignment {
    fn clone(&self) -> (res: Self)
        ensures
            res@ == self@,
    {
        Assignment { target: self.target, value: self.value.clone(), span: self.span }
    }
}

impl Clone for Update {
    fn clone(&self) -> (res: Self)
        ensures
            res@ == self@,
    {
        let mut assignments: Vec<Assignment> = Vec::new();
        let mut i: usize = 0;
        while i < self.assignments.len()
            invariant
                i <= self.assignments@.len(),
                assignments@.len() == i,
                forall|j: int| 0 <= j < i ==> #[trigger] assignments@[j]@ == self.assignments@[j]@,
            decreases self.assignments.len() - i,
        {
            assignments.push(self.assignments[i].clone());
            i += 1;
        }
        let r = Update { probability: self.probability.clone(), assignments, span: self.span };
        assert(r@.assignments =~= self@.assignments);
        r
    }
}

/// Copies a list of commands.
pub fn clone_commands(commands: &Vec<Command>) -> (res: Vec<Command>)
    ensures
        res@.len() == commands@.len(),
        forall|j: int| 0 <= j < commands@.len() ==> #[trigger] res@[j]@ == commands@[j]@,
{
    let mut res: Vec<Command> = Vec::new();
    let mut i: usize = 0;
    while i < commands.len()
        invariant
            i <= commands@.len(),
            res@.len() == i,
            forall|j: int| 0 <= j < i ==> #[trigger] res@[j]@ == commands@[j]@,
        decreases commands.len() - i,
    {
        res.push(commands[i].clone());
        i += 1;
    }
    res
}

impl Clone for Command {
    fn clone(&self) -> (res: Self)
        ensures
            res@ == self@,
    {
        let mut updates: Vec<Update> = Vec::new();
        let mut i: usize = 0;
        while i < self.updates.len()
            invariant
                i <= self.updates@.len(),
                updates@.len() == i,
                forall|j: int| 0 <= j < i ==> #[trigger] updates@[j]@ == self.updates@[j]@,
            decreases self.updates.len() - i,
        {
            updates.push(self.updates[i].clone());
            i += 1;
        }
        let action: Option<Identifier> = match &self.action {
            Some(a) => Some(a.clone()),
            None => None,
        };
        let r = Command { action, guard: self.guard.clone(), updates, span: self.span };
        assert(r@.updates =~= self@.updates);
        r
    }
}

impl Clone for Module {
    fn clone(&self) -> (res: Self)
        ensures
            res@ == self@,
    {
        let commands = clone_commands(&self.commands);
        let r = Module { name: self.name.clone(), commands, attributes: self.attributes.clone(), span: self.span };
        assert(r@.commands =~= self@.commands);
        r
    }
}

impl Clone for Formula {
    fn clone(&self) -> (res: Self)
        ensures
            res@ == self@,
    {
        Formula { name: self.name.clone(), condition: self.condition.clone() }
    }
}

impl Clone for Label {
    fn clone(&self) -> (res: Self)
        ensures
            res@ == self@,
    {
        Label { name: self.name.clone(), condition: self.condition.clone() }
    }
}

impl Clone for Model {
    fn clone(&self) -> (res: Self)
        ensures
            res@ == self@,
    {
        let mut modules: Vec<Module> = Vec::new();
        let mut i: usize = 0;
        while i < self.modules.len()
            invariant
                i <= self.modules@.len(),
                modules@.len() == i,
                forall|j: int| 0 <= j < i ==> #[trigger] modules@[j]@ == self.modules@[j]@,
            decreases self.modules.len() - i,
        {
            modules.push(self.modules[i].clone());
            i += 1;
        }
        let mut formulas: Vec<Formula> = Vec::new();
        let mut k: usize = 0;
        while k < self.formulas.len()
            invariant
                k <= self.formulas@.len(),
                formulas@.len() == k,
                forall|j: int| 0 <= j < k ==> #[trigger] formulas@[j]@ == self.formulas@[j]@,
            decreases self.formulas.len() - k,
        {
            formulas.push(self.formulas[k].clone());
            k += 1;
        }
        let mut labels: Vec<Label> = Vec::new();
        let mut l: usize = 0;
        while l < self.labels.len()
            invariant
                l <= self.labels@.len(),
                labels@.len() == l,
                forall|j: int| 0 <= j < l ==> #[trigger] labels@[j]@ == self.labels@[j]@,
            decreases self.labels.len() - l,
        {
            labels.push(self.labels[l].clone());
            l += 1;
        }
        let r = Model {
            variable_manager: self.variable_manager.clone(),
            modules,
            formulas,
            labels,
            span: self.span,
        };
        assert(r@.modules =~= self@.modules);
        assert(r@.formulas =~= self@.formulas);
        assert(r@.labels =~= self@.labels);
        r
    }
}

} // verus!
