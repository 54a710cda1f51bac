//! Completing the `{fixed}`/`{repairable}` marks of modules and the `{visible}`/`{hidden}` marks
//! of variables before a model is repaired.
use vstd::prelude::*;
use crate::prism::model::{
    flag_in, named_in, Attributes, Model, ModelView, Module, ModuleView, VariableInfo,
    VariableScope, VariableView,
};

verus! {

/// Why the marks of a model cannot be completed.
#[derive(Clone, Copy, PartialEq, Eq, Structural, Debug)]
pub enum PreprocessError {
    /// The module is marked both `{fixed}` and `{repairable}`.
    FixedAndRepairable { module: usize },
    /// Some modules are marked `{fixed}`, some `{repairable}` and some not at all.
    MixedModuleMarks,
    /// The unmarked module already holds a non-flag annotation with the name of the mark it
    /// is to receive.
    ModuleNameTaken { module: usize },
    /// The variable is local to a module that the model does not have.
    UnknownModule { variable: usize },
    /// The module is marked both `{visible}` and `{hidden}`.
    ModuleVisibleAndHidden { module: usize },
    /// The variable belongs to a repairable module and is marked visible or hidden.
    MarkedInRepairable { variable: usize },
    /// The variable is marked both `{visible}` and `{hidden}`.
    VisibleAndHidden { variable: usize },
    /// Some variables are marked visible, some hidden and some not at all.
    MixedVariableMarks,
    /// The unmarked variable already holds a non-flag annotation with the name of the mark it
    /// is to receive.
    VariableNameTaken { variable: usize },
}

/// The first error among those that `f` gives to the indices `0..n`, in index order.
pub open spec fn first_error(f: spec_fn(int) -> Option<PreprocessError>, n: int) -> Option<PreprocessError>
    decreases n,
{
    if n <= 0 {
        None
    } else {
        match first_error(f, n - 1) {
            Some(e) => Some(e),
            None => f(n - 1),
        }
    }
}

pub open spec fn is_fixed(attrs: Seq<(Seq<char>, bool)>) -> bool {
    flag_in(attrs, "fixed"@)
}

pub open spec fn is_repairable(attrs: Seq<(Seq<char>, bool)>) -> bool {
    flag_in(attrs, "repairable"@)
}

pub open spec fn is_unmarked_module(attrs: Seq<(Seq<char>, bool)>) -> bool {
    !is_fixed(attrs) && !is_repairable(attrs)
}

pub open spec fn some_fixed(ms: Seq<ModuleView>) -> bool {
    exists|i: int| 0 <= i < ms.len() && is_fixed(#[trigger] ms[i].attributes)
}

pub open spec fn some_repairable(ms: Seq<ModuleView>) -> bool {
    exists|i: int| 0 <= i < ms.len() && is_repairable(#[trigger] ms[i].attributes)
}

pub open spec fn some_unmarked_module(ms: Seq<ModuleView>) -> bool {
    exists|i: int| 0 <= i < ms.len() && is_unmarked_module(#[trigger] ms[i].attributes)
}

/// The mark that unmarked modules receive: the opposite of the one that was used.
pub open spec fn module_mark(ms: Seq<ModuleView>) -> Seq<char> {
    if some_repairable(ms) { "fixed"@ } else { "repairable"@ }
}

pub open spec fn both_marks_error(ms: Seq<ModuleView>, i: int) -> Option<PreprocessError> {
    if is_fixed(ms[i].attributes) && is_repairable(ms[i].attributes) {
        Some(PreprocessError::FixedAndRepairable { module: i as usize })
    } else {
        None
    }
}

pub open spec fn module_name_error(ms: Seq<ModuleView>, i: int, mark: Seq<char>) -> Option<PreprocessError> {
    if is_unmarked_module(ms[i].attributes) && named_in(ms[i].attributes, mark) {
        Some(PreprocessError::ModuleNameTaken { module: i as usize })
    } else {
        None
    }
}

/// The module with the mark added where it has neither.
pub open spec fn marked_module(m: ModuleView, mark: Seq<char>) -> ModuleView {
    if is_unmarked_module(m.attributes) {
        ModuleView { attributes: m.attributes.push((mark, true)), ..m }
    } else {
        m
    }
}

/// What completing the module marks gives: the new modules, and whether no module was marked,
/// so that every module is taken as repairable.
pub open spec fn fixed_annotation(ms: Seq<ModuleView>) -> Result<(Seq<ModuleView>, bool), PreprocessError> {
    match first_error(|i: int| both_marks_error(ms, i), ms.len() as int) {
        Some(e) => Err(e),
        None => if some_fixed(ms) && some_repairable(ms) && some_unmarked_module(ms) {
            Err(PreprocessError::MixedModuleMarks)
        } else {
            match first_error(|i: int| module_name_error(ms, i, module_mark(ms)), ms.len() as int) {
                Some(e) => Err(e),
                None => Ok((
                    Seq::new(ms.len(), |i: int| marked_module(ms[i], module_mark(ms))),
                    !some_fixed(ms) && !some_repairable(ms) && some_unmarked_module(ms),
                )),
            }
        },
    }
}

proof fn lemma_first_error_step(f: spec_fn(int) -> Option<PreprocessError>, i: int)
    requires
        0 <= i,
        first_error(f, i) is None,
    ensures
        first_error(f, i + 1) == f(i),
{
}

proof fn lemma_first_error_stays(f: spec_fn(int) -> Option<PreprocessError>, i: int, m: int)
    requires
        0 <= i <= m,
        first_error(f, i) is Some,
    ensures
        first_error(f, m) == first_error(f, i),
    decreases m - i,
{
    if i < m {
        lemma_first_error_stays(f, i, m - 1);
    }
}

/// Marks every module that is neither `{fixed}` nor `{repairable}` with the opposite of the mark
/// that the others use (`{repairable}` where no module is marked). Returns whether no module was
/// marked at all. Contradictory marks (a module marked both ways, or fixed, repairable and
/// unmarked modules together) are reported as errors, by design, with the model unchanged;
/// the caller decides whether to stop, and the command-line program does.
pub fn annotate_fixed(model: &mut Model) -> (r: Result<bool, PreprocessError>)
    ensures
        match fixed_annotation(old(model)@.modules) {
            Ok((ms, all_assumed)) => r == Ok::<bool, PreprocessError>(all_assumed)
                && final(model)@ == (ModelView { modules: ms, ..old(model)@ }),
            Err(e) => r == Err::<bool, PreprocessError>(e) && final(model)@ == old(model)@,
        },
{
    let ghost ms = model@.modules;
    let n = model.modules.len();
    let ghost f1 = |i: int| both_marks_error(ms, i);
    let mut saw_fixed = false;
    let mut saw_repairable = false;
    let mut saw_unmarked = false;
    let mut i: usize = 0;
    while i < n
        invariant
            ms == model@.modules,
            n == ms.len(),
            f1 == (|i: int| both_marks_error(ms, i)),
            i <= n,
            first_error(f1, i as int) is None,
            saw_fixed == exists|j: int| 0 <= j < i && is_fixed(#[trigger] ms[j].attributes),
            saw_repairable == exists|j: int| 0 <= j < i && is_repairable(#[trigger] ms[j].attributes),
            saw_unmarked == exists|j: int| 0 <= j < i && is_unmarked_module(#[trigger] ms[j].attributes),
        decreases n - i,
    {
        let fixed = model.modules[i].attributes.is_flag_set("fixed");
        let repairable = model.modules[i].attributes.is_flag_set("repairable");
        proof { lemma_first_error_step(f1, i as int); }
        if fixed && repairable {
            proof { lemma_first_error_stays(f1, i + 1, n as int); }
            return Err(PreprocessError::FixedAndRepairable { module: i });
        }
        saw_fixed = saw_fixed || fixed;
        saw_repairable = saw_repairable || repairable;
        saw_unmarked = saw_unmarked || (!fixed && !repairable);
        i += 1;
    }
    if saw_fixed && saw_repairable && saw_unmarked {
        return Err(PreprocessError::MixedModuleMarks);
    }
    let mark: &str = if saw_repairable { "fixed" } else { "repairable" };
    assert(mark@ == module_mark(ms));
    assert(f1 == (|i: int| both_marks_error(ms, i)));
    let ghost f2 = |i: int| module_name_error(ms, i, module_mark(ms));
    let mut k: usize = 0;
    while k < n
        invariant
            ms == model@.modules,
            n == ms.len(),
            f2 == (|i: int| module_name_error(ms, i, module_mark(ms))),
            mark@ == module_mark(ms),
            first_error(|i: int| both_marks_error(ms, i), n as int) is None,
            !(some_fixed(ms) && some_repairable(ms) && some_unmarked_module(ms)),
            k <= n,
            first_error(f2, k as int) is None,
        decreases n - k,
    {
        let fixed = model.modules[k].attributes.is_flag_set("fixed");
        let repairable = model.modules[k].attributes.is_flag_set("repairable");
        proof { lemma_first_error_step(f2, k as int); }
        if !fixed && !repairable && model.modules[k].attributes.contains(mark) {
            proof { lemma_first_error_stays(f2, k + 1, n as int); }
            return Err(PreprocessError::ModuleNameTaken { module: k });
        }
        k += 1;
    }
    mark_modules(&mut model.modules, mark);
    assert(model@.modules =~= Seq::new(ms.len(), |i: int| marked_module(ms[i], module_mark(ms))));
    Ok(!saw_fixed && !saw_repairable && saw_unmarked)
}

fn mark_modules(modules: &mut Vec<Module>, mark: &str)
    ensures
        final(modules)@.len() == old(modules)@.len(),
        forall|i: int| 0 <= i < old(modules)@.len()
            ==> #[trigger] final(modules)@[i]@ == marked_module(old(modules)@[i]@, mark@),
{
    let n = modules.len();
    let mut i: usize = 0;
    while i < n
        invariant
            n == old(modules)@.len(),
            modules@.len() == n,
            i <= n,
            forall|j: int| 0 <= j < i ==> #[trigger] modules@[j]@ == marked_module(old(modules)@[j]@, mark@),
            forall|j: int| i <= j < n ==> #[trigger] modules@[j] == old(modules)@[j],
        decreases n - i,
    {
        mark_module(&mut modules[i], mark);
        i += 1;
    }
}

fn mark_module(module: &mut Module, mark: &str)
    ensures
        final(module)@ == marked_module(old(module)@, mark@),
{
    let fixed = module.attributes.is_flag_set("fixed");
    let repairable = module.attributes.is_flag_set("repairable");
    if !fixed && !repairable {
        module.attributes.push_flag(mark);
    }
}

/// Whether the variable carries an annotation named `visible` or `hidden`.
pub open spec fn has_visibility_annotation(attrs: Seq<(Seq<char>, bool)>) -> bool {
    named_in(attrs, "visible"@) || named_in(attrs, "hidden"@)
}

/// The module whose visibility marks the variable takes over: that of a local variable without
/// a visibility annotation of its own.
pub open spec fn inherits_from(v: VariableView) -> Option<int> {
    if has_visibility_annotation(v.attributes) {
        None
    } else {
        match v.scope {
            VariableScope::LocalVariable { module_index } => Some(module_index as int),
            VariableScope::GlobalVariable => None,
        }
    }
}

pub open spec fn inherit_error(vs: Seq<VariableView>, ms: Seq<ModuleView>, i: int) -> Option<PreprocessError> {
    match inherits_from(vs[i]) {
        Some(mi) => if mi >= ms.len() {
            Some(PreprocessError::UnknownModule { variable: i as usize })
        } else if flag_in(ms[mi].attributes, "visible"@) && flag_in(ms[mi].attributes, "hidden"@) {
            Some(PreprocessError::ModuleVisibleAndHidden { module: mi as usize })
        } else {
            None
        },
        None => None,
    }
}

/// The annotations of the variable after it took over the marks of its module.
pub open spec fn inherited_marks(v: VariableView, ms: Seq<ModuleView>) -> Seq<(Seq<char>, bool)> {
    match inherits_from(v) {
        Some(mi) => {
            let with_visible = if flag_in(ms[mi].attributes, "visible"@) {
                v.attributes.push(("visible"@, true))
            } else {
                v.attributes
            };
            if flag_in(ms[mi].attributes, "hidden"@) {
                with_visible.push(("hidden"@, true))
            } else {
                with_visible
            }
        },
        None => v.attributes,
    }
}

/// Whether the variable is marked visible, by itself or by its module.
pub open spec fn marked_visible(v: VariableView, ms: Seq<ModuleView>) -> bool {
    flag_in(v.attributes, "visible"@) || match inherits_from(v) {
        Some(mi) => flag_in(ms[mi].attributes, "visible"@),
        None => false,
    }
}

/// Whether the variable is marked hidden, by itself or by its module.
pub open spec fn marked_hidden(v: VariableView, ms: Seq<ModuleView>) -> bool {
    flag_in(v.attributes, "hidden"@) || match inherits_from(v) {
        Some(mi) => flag_in(ms[mi].attributes, "hidden"@),
        None => false,
    }
}

/// Whether the variable belongs to a module marked `{repairable}`.
pub open spec fn in_repairable_module(v: VariableView, ms: Seq<ModuleView>) -> bool {
    match v.scope {
        VariableScope::LocalVariable { module_index } => module_index < ms.len()
            && is_repairable(ms[module_index as int].attributes),
        VariableScope::GlobalVariable => false,
    }
}

pub open spec fn check_error(vs: Seq<VariableView>, ms: Seq<ModuleView>, i: int) -> Option<PreprocessError> {
    let v = vs[i];
    if v.scope matches VariableScope::LocalVariable { module_index } && module_index >= ms.len() {
        Some(PreprocessError::UnknownModule { variable: i as usize })
    } else if in_repairable_module(v, ms) {
        if marked_visible(v, ms) || marked_hidden(v, ms) {
            Some(PreprocessError::MarkedInRepairable { variable: i as usize })
        } else {
            None
        }
    } else if marked_visible(v, ms) && marked_hidden(v, ms) {
        Some(PreprocessError::VisibleAndHidden { variable: i as usize })
    } else {
        None
    }
}

pub open spec fn unmarked_variable(v: VariableView, ms: Seq<ModuleView>) -> bool {
    !in_repairable_module(v, ms) && !marked_visible(v, ms) && !marked_hidden(v, ms)
}

pub open spec fn some_visible(vs: Seq<VariableView>, ms: Seq<ModuleView>) -> bool {
    exists|i: int| 0 <= i < vs.len() && !in_repairable_module(vs[i], ms) && #[trigger] marked_visible(vs[i], ms)
}

pub open spec fn some_hidden(vs: Seq<VariableView>, ms: Seq<ModuleView>) -> bool {
    exists|i: int| 0 <= i < vs.len() && !in_repairable_module(vs[i], ms) && #[trigger] marked_hidden(vs[i], ms)
}

pub open spec fn some_unmarked_variable(vs: Seq<VariableView>, ms: Seq<ModuleView>) -> bool {
    exists|i: int| 0 <= i < vs.len() && #[trigger] unmarked_variable(vs[i], ms)
}

/// The mark that unmarked variables receive: the opposite of the one that was used.
pub open spec fn variable_mark(vs: Seq<VariableView>, ms: Seq<ModuleView>) -> Seq<char> {
    if some_visible(vs, ms) { "hidden"@ } else { "visible"@ }
}

pub open spec fn variable_name_error(vs: Seq<VariableView>, ms: Seq<ModuleView>, i: int, mark: Seq<char>) -> Option<PreprocessError> {
    if unmarked_variable(vs[i], ms) && named_in(vs[i].attributes, mark) {
        Some(PreprocessError::VariableNameTaken { variable: i as usize })
    } else {
        None
    }
}

/// The variable with its final annotations.
pub open spec fn marked_variable(v: VariableView, ms: Seq<ModuleView>, mark: Seq<char>) -> VariableView {
    if unmarked_variable(v, ms) {
        VariableView { attributes: v.attributes.push((mark, true)), ..v }
    } else {
        VariableView { attributes: inherited_marks(v, ms), ..v }
    }
}

/// What completing the variable marks gives: the new variables, and whether no variable was
/// marked, so that every variable is taken as visible.
pub open spec fn visible_annotation(vs: Seq<VariableView>, ms: Seq<ModuleView>)
    -> Result<(Seq<VariableView>, bool), PreprocessError>
{
    match first_error(|i: int| inherit_error(vs, ms, i), vs.len() as int) {
        Some(e) => Err(e),
        None => match first_error(|i: int| check_error(vs, ms, i), vs.len() as int) {
            Some(e) => Err(e),
            None => if some_visible(vs, ms) && some_hidden(vs, ms) && some_unmarked_variable(vs, ms) {
                Err(PreprocessError::MixedVariableMarks)
            } else {
                match first_error(|i: int| variable_name_error(vs, ms, i, variable_mark(vs, ms)), vs.len() as int) {
                    Some(e) => Err(e),
                    None => Ok((
                        Seq::new(vs.len(), |i: int| marked_variable(vs[i], ms, variable_mark(vs, ms))),
                        !some_visible(vs, ms) && !some_hidden(vs, ms) && some_unmarked_variable(vs, ms),
                    )),
                }
            },
        },
    }
}

/// The module that the variable takes its marks over from, if any.
fn inherited_module(v: &VariableInfo) -> (r: Option<usize>)
    ensures
        match inherits_from(v@) {
            Some(mi) => r == Some(mi as usize),
            None => r is None,
        },
{
    if v.attributes.contains("visible") || v.attributes.contains("hidden") {
        return None;
    }
    match v.scope {
        VariableScope::LocalVariable { module_index } => Some(module_index),
        VariableScope::GlobalVariable => None,
    }
}

/// Whether the variable is marked visible and whether it is marked hidden, by itself or by its
/// module.
fn visibility_of(v: &VariableInfo, modules: &Vec<Module>) -> (r: (bool, bool))
    requires
        inherits_from(v@) matches Some(mi) ==> mi < modules@.len(),
    ensures
        r.0 == marked_visible(v@, modules@.map_values(|m: Module| m@)),
        r.1 == marked_hidden(v@, modules@.map_values(|m: Module| m@)),
{
    let mut visible = v.attributes.is_flag_set("visible");
    let mut hidden = v.attributes.is_flag_set("hidden");
    match inherited_module(v) {
        Some(mi) => {
            visible = visible || modules[mi].attributes.is_flag_set("visible");
            hidden = hidden || modules[mi].attributes.is_flag_set("hidden");
        },
        None => {},
    }
    (visible, hidden)
}

/// Whether the variable lies in a module marked `{repairable}`; `None` where its module is
/// missing.
fn repairable_scope(v: &VariableInfo, modules: &Vec<Module>) -> (r: Option<bool>)
    ensures
        match v@.scope {
            VariableScope::LocalVariable { module_index } => if module_index < modules@.len() {
                r == Some(in_repairable_module(v@, modules@.map_values(|m: Module| m@)))
            } else {
                r is None
            },
            VariableScope::GlobalVariable => r == Some(false),
        },
{
    match v.scope {
        VariableScope::LocalVariable { module_index } => {
            if module_index < modules.len() {
                Some(modules[module_index].attributes.is_flag_set("repairable"))
            } else {
                None
            }
        },
        VariableScope::GlobalVariable => Some(false),
    }
}

/// Completes the visibility marks of the variables: a local variable without any takes over
/// those of its module; then every variable outside repairable modules that is still unmarked
/// receives the opposite of the mark that the others use (`{visible}` where none is marked).
/// Returns whether no variable was marked at all.
pub fn annotate_visible(model: &mut Model) -> (r: Result<bool, PreprocessError>)
    ensures
        match visible_annotation(old(model)@.variables, old(model)@.modules) {
            Ok((vs, all_visible)) => r == Ok::<bool, PreprocessError>(all_visible)
                && final(model)@ == (ModelView { variables: vs, ..old(model)@ }),
            Err(e) => r == Err::<bool, PreprocessError>(e) && final(model)@ == old(model)@,
        },
{
    let ghost vs = model@.variables;
    let ghost ms = model@.modules;
    let n = model.variable_manager.variables.len();
    let ghost f1 = |i: int| inherit_error(vs, ms, i);
    let mut i: usize = 0;
    while i < n
        invariant
            vs == model@.variables,
            ms == model@.modules,
            n == vs.len(),
            f1 == (|i: int| inherit_error(vs, ms, i)),
            i <= n,
            first_error(f1, i as int) is None,
        decreases n - i,
    {
        proof { lemma_first_error_step(f1, i as int); }
        match inherited_module(&model.variable_manager.variables[i]) {
            Some(mi) => {
                if mi >= model.modules.len() {
                    proof { lemma_first_error_stays(f1, i + 1, n as int); }
                    return Err(PreprocessError::UnknownModule { variable: i });
                }
                if model.modules[mi].attributes.is_flag_set("visible")
                    && model.modules[mi].attributes.is_flag_set("hidden") {
                    proof { lemma_first_error_stays(f1, i + 1, n as int); }
                    return Err(PreprocessError::ModuleVisibleAndHidden { module: mi });
                }
            },
            None => {},
        }
        i += 1;
    }
    assert(f1 == (|i: int| inherit_error(vs, ms, i)));
    let ghost f2 = |i: int| check_error(vs, ms, i);
    let mut saw_visible = false;
    let mut saw_hidden = false;
    let mut saw_unmarked = false;
    let mut j: usize = 0;
    while j < n
        invariant
            vs == model@.variables,
            ms == model@.modules,
            n == vs.len(),
            first_error(|i: int| inherit_error(vs, ms, i), n as int) is None,
            f2 == (|i: int| check_error(vs, ms, i)),
            j <= n,
            first_error(f2, j as int) is None,
            saw_visible == exists|k: int| 0 <= k < j && !in_repairable_module(vs[k], ms) && #[trigger] marked_visible(vs[k], ms),
            saw_hidden == exists|k: int| 0 <= k < j && !in_repairable_module(vs[k], ms) && #[trigger] marked_hidden(vs[k], ms),
            saw_unmarked == exists|k: int| 0 <= k < j && #[trigger] unmarked_variable(vs[k], ms),
        decreases n - j,
    {
        proof {
            lemma_first_error_step(f2, j as int);
            lemma_no_inherit_error(vs, ms, j as int, n as int);
        }
        let v = &model.variable_manager.variables[j];
        let repairable = match repairable_scope(v, &model.modules) {
            Some(b) => b,
            None => {
                proof { lemma_first_error_stays(f2, j + 1, n as int); }
                return Err(PreprocessError::UnknownModule { variable: j });
            },
        };
        let (visible, hidden) = visibility_of(v, &model.modules);
        assert(v@ == vs[j as int]);
        assert(unmarked_variable(vs[j as int], ms) == (!repairable && !visible && !hidden));
        if repairable {
            if visible || hidden {
                proof { lemma_first_error_stays(f2, j + 1, n as int); }
                return Err(PreprocessError::MarkedInRepairable { variable: j });
            }
        } else {
            if visible && hidden {
                proof { lemma_first_error_stays(f2, j + 1, n as int); }
                return Err(PreprocessError::VisibleAndHidden { variable: j });
            }
            saw_visible = saw_visible || visible;
            saw_hidden = saw_hidden || hidden;
            saw_unmarked = saw_unmarked || (!visible && !hidden);
        }
        j += 1;
    }
    if saw_visible && saw_hidden && saw_unmarked {
        return Err(PreprocessError::MixedVariableMarks);
    }
    let mark: &str = if saw_visible { "hidden" } else { "visible" };
    assert(mark@ == variable_mark(vs, ms));
    assert(f2 == (|i: int| check_error(vs, ms, i)));
    let ghost f3 = |i: int| variable_name_error(vs, ms, i, variable_mark(vs, ms));
    let mut k: usize = 0;
    while k < n
        invariant
            vs == model@.variables,
            ms == model@.modules,
            n == vs.len(),
            first_error(|i: int| inherit_error(vs, ms, i), n as int) is None,
            first_error(|i: int| check_error(vs, ms, i), n as int) is None,
            !(some_visible(vs, ms) && some_hidden(vs, ms) && some_unmarked_variable(vs, ms)),
            f3 == (|i: int| variable_name_error(vs, ms, i, variable_mark(vs, ms))),
            mark@ == variable_mark(vs, ms),
            k <= n,
            first_error(f3, k as int) is None,
        decreases n - k,
    {
        proof {
            lemma_first_error_step(f3, k as int);
            lemma_no_inherit_error(vs, ms, k as int, n as int);
            lemma_no_check_error(vs, ms, k as int, n as int);
        }
        let v = &model.variable_manager.variables[k];
        let repairable = match repairable_scope(v, &model.modules) {
            Some(b) => b,
            None => false,
        };
        let (visible, hidden) = visibility_of(v, &model.modules);
        if !repairable && !visible && !hidden && v.attributes.contains(mark) {
            proof { lemma_first_error_stays(f3, k + 1, n as int); }
            return Err(PreprocessError::VariableNameTaken { variable: k });
        }
        k += 1;
    }
    assert forall|i: int| 0 <= i < n implies scope_within(#[trigger] model.variable_manager.variables@[i]@, model.modules@.len()) by {
        lemma_no_check_error(vs, ms, i, n as int);
        assert(model.variable_manager.variables@[i]@ == vs[i]);
    }
    mark_variables(&mut model.variable_manager.variables, &model.modules, mark);
    assert(model@.variables =~= Seq::new(vs.len(), |i: int| marked_variable(vs[i], ms, variable_mark(vs, ms))));
    Ok(!saw_visible && !saw_hidden && saw_unmarked)
}

proof fn lemma_no_inherit_error(vs: Seq<VariableView>, ms: Seq<ModuleView>, i: int, n: int)
    requires
        0 <= i < n,
        first_error(|i: int| inherit_error(vs, ms, i), n) is None,
    ensures
        inherit_error(vs, ms, i) is None,
    decreases n,
{
    if i < n - 1 {
        lemma_no_inherit_error(vs, ms, i, n - 1);
    }
}

proof fn lemma_no_check_error(vs: Seq<VariableView>, ms: Seq<ModuleView>, i: int, n: int)
    requires
        0 <= i < n,
        first_error(|i: int| check_error(vs, ms, i), n) is None,
    ensures
        check_error(vs, ms, i) is None,
    decreases n,
{
    if i < n - 1 {
        lemma_no_check_error(vs, ms, i, n - 1);
    }
}

/// Whether a local variable names a module among the first `n`.
pub open spec fn scope_within(v: VariableView, n: nat) -> bool {
    v.scope matches VariableScope::LocalVariable { module_index } ==> module_index < n
}

fn mark_variables(variables: &mut Vec<VariableInfo>, modules: &Vec<Module>, mark: &str)
    requires
        forall|i: int| 0 <= i < old(variables)@.len() ==> scope_within(#[trigger] old(variables)@[i]@, modules@.len()),
    ensures
        final(variables)@.len() == old(variables)@.len(),
        forall|i: int| 0 <= i < old(variables)@.len()
            ==> #[trigger] final(variables)@[i]@ == marked_variable(old(variables)@[i]@, modules@.map_values(|m: Module| m@), mark@),
{
    let ghost ms = modules@.map_values(|m: Module| m@);
    let n = variables.len();
    let mut i: usize = 0;
    while i < n
        invariant
            n == old(variables)@.len(),
            ms == modules@.map_values(|m: Module| m@),
            forall|i: int| 0 <= i < old(variables)@.len() ==> scope_within(#[trigger] old(variables)@[i]@, modules@.len()),
            variables@.len() == n,
            i <= n,
            forall|j: int| 0 <= j < i ==> #[trigger] variables@[j]@ == marked_variable(old(variables)@[j]@, ms, mark@),
            forall|j: int| i <= j < n ==> #[trigger] variables@[j] == old(variables)@[j],
        decreases n - i,
    {
        assert(scope_within(variables@[i as int]@, modules@.len()));
        mark_variable(&mut variables[i], modules, mark);
        i += 1;
    }
}

fn mark_variable(v: &mut VariableInfo, modules: &Vec<Module>, mark: &str)
    requires
        scope_within(old(v)@, modules@.len()),
    ensures
        final(v)@ == marked_variable(old(v)@, modules@.map_values(|m: Module| m@), mark@),
{
    let ghost ms = modules@.map_values(|m: Module| m@);
    let repairable = match repairable_scope(v, modules) {
        Some(b) => b,
        None => false,
    };
    let (visible, hidden) = visibility_of(v, modules);
    if !repairable && !visible && !hidden {
        v.attributes.push_flag(mark);
        return;
    }
    match inherited_module(v) {
        Some(mi) => {
            if modules[mi].attributes.is_flag_set("visible") {
                v.attributes.push_flag("visible");
            }
            if modules[mi].attributes.is_flag_set("hidden") {
                v.attributes.push_flag("hidden");
            }
        },
        None => {},
    }
}

/// Completes the marks of modules, then those of variables. Returns whether no module was
/// marked (so every module is taken as repairable) and whether no variable was marked (so
/// every variable is taken as visible).
pub fn preprocess_model(model: &mut Model) -> (r: Result<(bool, bool), PreprocessError>)
    ensures
        match fixed_annotation(old(model)@.modules) {
            Err(e) => r == Err::<(bool, bool), PreprocessError>(e) && final(model)@ == old(model)@,
            Ok((ms, all_repairable)) => match visible_annotation(old(model)@.variables, ms) {
                Err(e) => r == Err::<(bool, bool), PreprocessError>(e)
                    && final(model)@ == (ModelView { modules: ms, ..old(model)@ }),
                Ok((vs, all_visible)) => r == Ok::<(bool, bool), PreprocessError>((all_repairable, all_visible))
                    && final(model)@ == (ModelView { variables: vs, modules: ms, ..old(model)@ }),
            },
        },
{
    let all_repairable = match annotate_fixed(model) {
        Ok(b) => b,
        Err(e) => return Err(e),
    };
    let all_visible = match annotate_visible(model) {
        Ok(b) => b,
        Err(e) => return Err(e),
    };
    Ok((all_repairable, all_visible))
}

proof fn lemma_flag_pushed(attrs: Seq<(Seq<char>, bool)>, mark: Seq<char>, other: Seq<char>)
    ensures
        flag_in(attrs.push((mark, true)), mark),
        other != mark ==> (flag_in(attrs.push((mark, true)), other) == flag_in(attrs, other)),
{
    let pushed = attrs.push((mark, true));
    assert(pushed[attrs.len() as int].0 == mark && pushed[attrs.len() as int].1);
    if other != mark {
        if flag_in(pushed, other) {
            let i = choose|i: int| 0 <= i < pushed.len() && #[trigger] pushed[i].0 == other && pushed[i].1;
            assert(i < attrs.len());
            assert(attrs[i] == pushed[i]);
        }
        if flag_in(attrs, other) {
            let i = choose|i: int| 0 <= i < attrs.len() && #[trigger] attrs[i].0 == other && attrs[i].1;
            assert(pushed[i] == attrs[i]);
        }
    }
}

/// Once the module marks are completed, every module is marked `{fixed}` or `{repairable}`,
/// and none is marked both.
pub proof fn law_module_marks_complete(ms: Seq<ModuleView>)
    requires
        fixed_annotation(ms) is Ok,
    ensures
        forall|i: int| 0 <= i < ms.len() ==> {
            let a = (#[trigger] fixed_annotation(ms)->Ok_0.0[i]).attributes;
            (is_fixed(a) || is_repairable(a)) && !(is_fixed(a) && is_repairable(a))
        },
{
    reveal_strlit("fixed");
    reveal_strlit("repairable");
    assert("fixed"@.len() == 5 && "repairable"@.len() == 10);
    assert("fixed"@ != "repairable"@);
    let ms2 = fixed_annotation(ms)->Ok_0.0;
    let mark = module_mark(ms);
    assert forall|i: int| 0 <= i < ms.len() implies {
        let a = (#[trigger] fixed_annotation(ms)->Ok_0.0[i]).attributes;
        (is_fixed(a) || is_repairable(a)) && !(is_fixed(a) && is_repairable(a))
    } by {
        let a = ms[i].attributes;
        assert(first_error(|j: int| both_marks_error(ms, j), ms.len() as int) is None);
        assert(ms2 == Seq::new(ms.len(), |j: int| marked_module(ms[j], module_mark(ms))));
        assert(ms2[i] == marked_module(ms[i], mark));
        lemma_no_first_error(|j: int| both_marks_error(ms, j), ms.len() as int, i);
        assert(both_marks_error(ms, i) is None);
        if is_unmarked_module(a) {
            let pushed = a.push((mark, true));
            assert(ms2[i].attributes == pushed);
            if mark == "fixed"@ {
                lemma_flag_pushed(a, mark, "repairable"@);
                assert(is_fixed(pushed));
                assert(!is_repairable(pushed));
            } else {
                assert(mark == "repairable"@);
                lemma_flag_pushed(a, mark, "fixed"@);
                assert(is_repairable(pushed));
                assert(!is_fixed(pushed));
            }
        } else {
            assert(ms2[i].attributes == a);
        }
    }
}

proof fn lemma_no_first_error(f: spec_fn(int) -> Option<PreprocessError>, n: int, i: int)
    requires
        0 <= i < n,
        first_error(f, n) is None,
    ensures
        f(i) is None,
    decreases n,
{
    if i < n - 1 {
        lemma_no_first_error(f, n - 1, i);
    }
}

proof fn lemma_flag_push(attrs: Seq<(Seq<char>, bool)>, mark: Seq<char>, other: Seq<char>)
    ensures
        flag_in(attrs.push((mark, true)), other) == (flag_in(attrs, other) || mark == other),
{
    if mark == other {
        lemma_flag_pushed(attrs, mark, other);
    } else {
        lemma_flag_pushed(attrs, mark, other);
    }
}

proof fn lemma_inherited_flags(v: VariableView, ms: Seq<ModuleView>)
    requires
        inherits_from(v) matches Some(mi) ==> 0 <= mi < ms.len(),
    ensures
        flag_in(inherited_marks(v, ms), "visible"@) == marked_visible(v, ms),
        flag_in(inherited_marks(v, ms), "hidden"@) == marked_hidden(v, ms),
{
    reveal_strlit("visible");
    reveal_strlit("hidden");
    assert("visible"@.len() == 7 && "hidden"@.len() == 6);
    match inherits_from(v) {
        Some(mi) => {
            let a = ms[mi].attributes;
            let with_visible = if flag_in(a, "visible"@) { v.attributes.push(("visible"@, true)) } else { v.attributes };
            if flag_in(a, "visible"@) {
                lemma_flag_push(v.attributes, "visible"@, "visible"@);
                lemma_flag_push(v.attributes, "visible"@, "hidden"@);
            }
            if flag_in(a, "hidden"@) {
                lemma_flag_push(with_visible, "hidden"@, "visible"@);
                lemma_flag_push(with_visible, "hidden"@, "hidden"@);
            }
        },
        None => {},
    }
}

/// Once the variable marks are completed, every variable outside the repairable modules is
/// marked `{visible}` or `{hidden}`, and none is marked both.
pub proof fn law_variable_marks_complete(vs: Seq<VariableView>, ms: Seq<ModuleView>)
    requires
        visible_annotation(vs, ms) is Ok,
    ensures
        forall|i: int| 0 <= i < vs.len() && !in_repairable_module(vs[i], ms) ==> {
            let a = (#[trigger] visible_annotation(vs, ms)->Ok_0.0[i]).attributes;
            (flag_in(a, "visible"@) || flag_in(a, "hidden"@)) && !(flag_in(a, "visible"@) && flag_in(a, "hidden"@))
        },
{
    reveal_strlit("visible");
    reveal_strlit("hidden");
    assert("visible"@.len() == 7 && "hidden"@.len() == 6);
    assert("visible"@ != "hidden"@);
    let result = visible_annotation(vs, ms)->Ok_0.0;
    let mark = variable_mark(vs, ms);
    assert(result == Seq::new(vs.len(), |j: int| marked_variable(vs[j], ms, variable_mark(vs, ms))));
    assert forall|i: int| 0 <= i < vs.len() && !in_repairable_module(vs[i], ms) implies {
        let a = (#[trigger] visible_annotation(vs, ms)->Ok_0.0[i]).attributes;
        (flag_in(a, "visible"@) || flag_in(a, "hidden"@)) && !(flag_in(a, "visible"@) && flag_in(a, "hidden"@))
    } by {
        let v = vs[i];
        lemma_no_inherit_error(vs, ms, i, vs.len() as int);
        lemma_no_check_error(vs, ms, i, vs.len() as int);
        assert(result[i] == marked_variable(v, ms, mark));
        if unmarked_variable(v, ms) {
            assert(!flag_in(v.attributes, "visible"@));
            assert(!flag_in(v.attributes, "hidden"@));
            lemma_flag_push(v.attributes, mark, "visible"@);
            lemma_flag_push(v.attributes, mark, "hidden"@);
        } else {
            lemma_inherited_flags(v, ms);
        }
    }
}

} // verus!
