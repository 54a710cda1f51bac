use model_repair::pipeline::preprocessing::{annotate_fixed, annotate_visible, preprocess_model, PreprocessError};
use model_repair::prism::expression::{Expression, Identifier, Span};
use model_repair::prism::model::{
    Attribute, Attributes, Model, Module, VariableInfo, VariableManager, VariableRange, VariableScope,
};

fn span() -> Span {
    Span::new(0, 0)
}

fn ident(name: &str) -> Identifier {
    Identifier::new(name.to_string(), span())
}

fn attrs(flags: &[&str]) -> Attributes {
    let mut a = Attributes::new();
    for f in flags {
        a.list.push(Attribute::flag(f.to_string()));
    }
    a
}

fn module(name: &str, flags: &[&str]) -> Module {
    Module { name: ident(name), commands: Vec::new(), attributes: attrs(flags), span: span() }
}

fn variable(name: &str, scope: VariableScope, flags: &[&str]) -> VariableInfo {
    VariableInfo {
        name: ident(name),
        range: VariableRange::Boolean { span: span() },
        is_constant: false,
        scope,
        initial_value: None,
        attributes: attrs(flags),
        span: span(),
    }
}

fn model(modules: Vec<Module>, variables: Vec<VariableInfo>) -> Model {
    Model {
        variable_manager: VariableManager { variables },
        modules,
        formulas: Vec::new(),
        labels: Vec::new(),
        span: span(),
    }
}

fn flags_of(a: &Attributes) -> Vec<(String, bool)> {
    a.list.iter().map(|x| (x.name.clone(), x.is_flag)).collect()
}

fn local(i: usize) -> VariableScope {
    VariableScope::LocalVariable { module_index: i }
}

#[test]
fn unmarked_modules_become_repairable() {
    let mut m = model(vec![module("a", &[]), module("b", &[])], vec![]);
    assert_eq!(annotate_fixed(&mut m), Ok(true));
    assert!(m.modules[0].attributes.is_flag_set("repairable"));
    assert!(m.modules[1].attributes.is_flag_set("repairable"));
    assert!(!m.modules[0].attributes.is_flag_set("fixed"));
}

#[test]
fn unmarked_modules_get_the_opposite_mark() {
    let mut m = model(vec![module("a", &["repairable"]), module("b", &[])], vec![]);
    assert_eq!(annotate_fixed(&mut m), Ok(false));
    assert_eq!(flags_of(&m.modules[0].attributes), vec![("repairable".to_string(), true)]);
    assert_eq!(flags_of(&m.modules[1].attributes), vec![("fixed".to_string(), true)]);

    let mut m = model(vec![module("a", &["fixed"]), module("b", &[])], vec![]);
    assert_eq!(annotate_fixed(&mut m), Ok(false));
    assert_eq!(flags_of(&m.modules[1].attributes), vec![("repairable".to_string(), true)]);
}

#[test]
fn fixed_and_repairable_module_is_refused() {
    let mut m = model(vec![module("a", &[]), module("b", &["fixed", "repairable"])], vec![]);
    assert_eq!(annotate_fixed(&mut m), Err(PreprocessError::FixedAndRepairable { module: 1 }));
    assert!(m.modules[0].attributes.list.is_empty());
}

#[test]
fn mixed_module_marks_are_refused() {
    let mut m = model(vec![module("a", &["fixed"]), module("b", &["repairable"]), module("c", &[])], vec![]);
    assert_eq!(annotate_fixed(&mut m), Err(PreprocessError::MixedModuleMarks));
}

#[test]
fn module_mark_name_taken_is_refused() {
    let mut taken = module("b", &[]);
    taken.attributes.list.push(Attribute { name: "fixed".to_string(), is_flag: false });
    let mut m = model(vec![module("a", &["repairable"]), taken], vec![]);
    assert_eq!(annotate_fixed(&mut m), Err(PreprocessError::ModuleNameTaken { module: 1 }));
    assert_eq!(m.modules[1].attributes.list.len(), 1);
}

#[test]
fn variables_inherit_module_visibility() {
    let mut m = model(
        vec![module("a", &["fixed", "hidden"]), module("b", &["fixed"])],
        vec![variable("x", local(0), &[]), variable("y", local(1), &["visible"]), variable("z", local(0), &[])],
    );
    assert_eq!(annotate_visible(&mut m), Ok(false));
    assert_eq!(flags_of(&m.variable_manager.variables[0].attributes), vec![("hidden".to_string(), true)]);
    assert_eq!(flags_of(&m.variable_manager.variables[1].attributes), vec![("visible".to_string(), true)]);
    assert_eq!(flags_of(&m.variable_manager.variables[2].attributes), vec![("hidden".to_string(), true)]);
}

#[test]
fn unmarked_variables_become_visible() {
    let mut m = model(vec![module("a", &["fixed"])], vec![variable("x", local(0), &[]), variable("g", VariableScope::GlobalVariable, &[])]);
    assert_eq!(annotate_visible(&mut m), Ok(true));
    assert!(m.variable_manager.variables[0].attributes.is_flag_set("visible"));
    assert!(m.variable_manager.variables[1].attributes.is_flag_set("visible"));
}

#[test]
fn repairable_module_variables_stay_unmarked() {
    let mut m = model(vec![module("a", &["repairable"])], vec![variable("x", local(0), &[])]);
    assert_eq!(annotate_visible(&mut m), Ok(false));
    assert!(m.variable_manager.variables[0].attributes.list.is_empty());
}

#[test]
fn visibility_errors() {
    let mut m = model(vec![module("a", &[])], vec![variable("x", local(3), &[])]);
    assert_eq!(annotate_visible(&mut m), Err(PreprocessError::UnknownModule { variable: 0 }));

    let mut m = model(vec![module("a", &["visible", "hidden"])], vec![variable("x", local(0), &[])]);
    assert_eq!(annotate_visible(&mut m), Err(PreprocessError::ModuleVisibleAndHidden { module: 0 }));

    let mut m = model(vec![module("a", &["repairable"])], vec![variable("x", local(0), &["visible"])]);
    assert_eq!(annotate_visible(&mut m), Err(PreprocessError::MarkedInRepairable { variable: 0 }));

    let mut m = model(vec![module("a", &[])], vec![variable("x", local(0), &["visible", "hidden"])]);
    assert_eq!(annotate_visible(&mut m), Err(PreprocessError::VisibleAndHidden { variable: 0 }));

    let mut m = model(
        vec![module("a", &[])],
        vec![variable("x", local(0), &["visible"]), variable("y", local(0), &["hidden"]), variable("z", local(0), &[])],
    );
    assert_eq!(annotate_visible(&mut m), Err(PreprocessError::MixedVariableMarks));
    assert_eq!(m.variable_manager.variables[2].attributes.list.len(), 0);
}

#[test]
fn variable_mark_name_taken_is_refused() {
    let mut named = variable("x", VariableScope::GlobalVariable, &[]);
    named.attributes.list.push(Attribute { name: "hidden".to_string(), is_flag: false });
    let mut m = model(vec![], vec![variable("y", VariableScope::GlobalVariable, &["visible"]), named]);
    assert_eq!(annotate_visible(&mut m), Err(PreprocessError::VariableNameTaken { variable: 1 }));
    let mut named = variable("x", VariableScope::GlobalVariable, &[]);
    named.attributes.list.push(Attribute { name: "visible".to_string(), is_flag: false });
    let mut m = model(vec![], vec![named]);
    assert_eq!(annotate_visible(&mut m), Err(PreprocessError::VariableNameTaken { variable: 0 }));
}

#[test]
fn preprocessing_marks_modules_then_variables() {
    let mut m = model(vec![module("a", &["fixed"]), module("b", &[])], vec![variable("x", local(0), &[]), variable("y", local(1), &[])]);
    assert_eq!(preprocess_model(&mut m), Ok((false, true)));
    assert!(m.modules[1].attributes.is_flag_set("repairable"));
    assert!(m.variable_manager.variables[0].attributes.is_flag_set("visible"));
    assert!(m.variable_manager.variables[1].attributes.list.is_empty());
}

#[test]
fn preprocessing_reports_module_errors_first() {
    let mut m = model(vec![module("a", &["fixed", "repairable"])], vec![variable("x", local(7), &[])]);
    assert_eq!(preprocess_model(&mut m), Err(PreprocessError::FixedAndRepairable { module: 0 }));
}

#[test]
fn completed_marks_cover_every_module() {
    let mut m = model(vec![module("a", &["fixed"]), module("b", &[]), module("c", &[])], vec![]);
    assert!(annotate_fixed(&mut m).is_ok());
    for md in &m.modules {
        assert!(md.attributes.is_flag_set("fixed") || md.attributes.is_flag_set("repairable"));
    }
    let _ = Expression::Bool(true, span());
}
