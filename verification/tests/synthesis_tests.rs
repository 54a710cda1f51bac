use model_repair::engine::synthesis::controller::{synthesised_model, VisibleVariableCollector};
use model_repair::engine::synthesis::domains::{all_valuations, variable_domain, DomainError, Literal};
use model_repair::engine::synthesis::files::{
    game_properties, game_source, synthesis_verdict, FileError, Inconclusive, InducedGame, StateFile,
};
use model_repair::engine::synthesis::game::{SynthesisError, SynthesisGame};
use model_repair::engine::synthesis::interface::ModuleInterface;
use model_repair::pipeline::tasks::RepairModule;
use model_repair::prism::expression::{Expression, Identifier, Span, VariableReference};
use model_repair::prism::model::{
    Assignment, Attribute, Attributes, Command, Model, Module, Update, VariableInfo, VariableManager,
    VariableRange, VariableScope,
};

fn sp() -> Span {
    Span::new(0, 0)
}

fn ident(name: &str) -> Identifier {
    Identifier::new(name.to_string(), sp())
}

fn lit(v: i64) -> Expression {
    Expression::Int(v, sp())
}

fn var(i: usize) -> Expression {
    Expression::VarOrConst(VariableReference::new(i), sp())
}

fn eq(a: Expression, b: Expression) -> Expression {
    Expression::Equals(Box::new(a), Box::new(b), sp())
}

fn show(e: &Expression) -> String {
    match e {
        Expression::Int(v, _) => v.to_string(),
        Expression::Float(b, _) => format!("f{}", b),
        Expression::Bool(b, _) => b.to_string(),
        Expression::VarOrConst(r, _) => format!("v{}", r.index),
        Expression::Equals(a, b, _) => format!("({}={})", show(a), show(b)),
        Expression::Conjunction(a, b, _) => format!("({}&{})", show(a), show(b)),
        Expression::Disjunction(a, b, _) => format!("({}|{})", show(a), show(b)),
        Expression::LessThan(a, b, _) => format!("({}<{})", show(a), show(b)),
        Expression::Addition(a, b, _) => format!("({}+{})", show(a), show(b)),
        _ => "?".to_string(),
    }
}

fn flagged(flags: &[&str]) -> Attributes {
    let mut a = Attributes::new();
    for f in flags {
        a.list.push(Attribute::flag(f.to_string()));
    }
    a
}

fn variable(name: &str, range: VariableRange, scope: VariableScope, flags: &[&str]) -> VariableInfo {
    VariableInfo { name: ident(name), range, is_constant: false, scope, initial_value: None, attributes: flagged(flags), span: sp() }
}

fn command(action: &str, guard: Expression, target: usize, value: Expression) -> Command {
    Command {
        action: Some(ident(action)),
        guard,
        updates: vec![Update {
            probability: lit(1),
            assignments: vec![Assignment { target: VariableReference::new(target), value, span: sp() }],
            span: sp(),
        }],
        span: sp(),
    }
}

/// Module `env` counts `s` from 0 to 2 on `go` and resets it on `stop`; module `ctrl` (to be
/// replaced) toggles `c` on `go`.
fn example() -> Model {
    let s = variable(
        "s",
        VariableRange::BoundedInt { min: lit(0), max: lit(2), span: sp() },
        VariableScope::LocalVariable { module_index: 0 },
        &["visible"],
    );
    let c = variable("c", VariableRange::Boolean { span: sp() }, VariableScope::LocalVariable { module_index: 1 }, &[]);
    let env = Module {
        name: ident("env"),
        commands: vec![
            command("go", Expression::LessThan(Box::new(var(0)), Box::new(lit(2)), sp()), 0, lit(1)),
            command("stop", eq(var(0), lit(2)), 0, lit(0)),
        ],
        attributes: flagged(&["fixed"]),
        span: sp(),
    };
    let ctrl = Module {
        name: ident("ctrl"),
        commands: vec![command("go", Expression::Bool(true, sp()), 1, Expression::Bool(false, sp()))],
        attributes: flagged(&["repairable"]),
        span: sp(),
    };
    Model {
        variable_manager: VariableManager { variables: vec![s, c] },
        modules: vec![env, ctrl],
        formulas: Vec::new(),
        labels: Vec::new(),
        span: sp(),
    }
}

#[test]
fn interface_of_a_replaced_module() {
    let m = example();
    let i = ModuleInterface::from_model(&m, RepairModule::ExistingModule { index: 1 });
    assert_eq!(i.visible_variables, vec![VariableReference::new(0)]);
    assert_eq!(i.manipulatable_variables, vec![VariableReference::new(1)]);
    let names: Vec<String> = i.actions.iter().map(|a| a.name.clone()).collect();
    assert_eq!(names, vec!["go".to_string(), "stop".to_string()]);
    assert_eq!(show(&i.actions[0].guard), "(v0<2)");
}

#[test]
fn interface_of_a_new_module_conjoins_guards_across_modules() {
    let mut m = example();
    m.modules[0].commands.push(command("go", eq(var(0), lit(0)), 0, lit(1)));
    let i = ModuleInterface::from_model(&m, RepairModule::NewModule);
    assert_eq!(i.visible_variables, vec![VariableReference::new(0), VariableReference::new(1)]);
    assert!(i.manipulatable_variables.is_empty());
    assert_eq!(show(&i.actions[0].guard), "(((v0<2)|(v0=0))&true)");
    assert_eq!(show(&i.actions[1].guard), "(v0=2)");
}

#[test]
fn hidden_and_constant_variables_are_not_inputs() {
    let mut m = example();
    m.variable_manager.variables[0].attributes = flagged(&["hidden"]);
    let i = ModuleInterface::from_model(&m, RepairModule::ExistingModule { index: 1 });
    assert!(i.visible_variables.is_empty());
    m.variable_manager.variables[1].is_constant = true;
    let i = ModuleInterface::from_model(&m, RepairModule::ExistingModule { index: 1 });
    assert!(i.manipulatable_variables.is_empty());
}

#[test]
fn domains_of_variables() {
    let m = example();
    assert_eq!(variable_domain(&m.variable_manager.variables[0]).unwrap(), vec![Literal::Int(0), Literal::Int(1), Literal::Int(2)]);
    assert_eq!(variable_domain(&m.variable_manager.variables[1]).unwrap(), vec![Literal::Bool(false), Literal::Bool(true)]);
    let u = variable("u", VariableRange::UnboundedInt { span: sp() }, VariableScope::GlobalVariable, &[]);
    assert_eq!(variable_domain(&u).err(), Some(DomainError::UnboundedInteger));
    let f = variable("f", VariableRange::Float { span: sp() }, VariableScope::GlobalVariable, &[]);
    assert_eq!(variable_domain(&f).err(), Some(DomainError::FloatVariable));
    let n = variable("n", VariableRange::BoundedInt { min: var(0), max: lit(3), span: sp() }, VariableScope::GlobalVariable, &[]);
    assert_eq!(variable_domain(&n).err(), Some(DomainError::NonLiteralBounds));
    let e = variable("e", VariableRange::BoundedInt { min: lit(3), max: lit(1), span: sp() }, VariableScope::GlobalVariable, &[]);
    assert!(variable_domain(&e).unwrap().is_empty());
}

#[test]
fn valuations_change_the_first_variable_fastest() {
    let ds = vec![vec![Literal::Int(0), Literal::Int(1)], vec![Literal::Bool(false), Literal::Bool(true)]];
    let v = all_valuations(&ds, 0);
    assert_eq!(
        v,
        vec![
            vec![Literal::Int(0), Literal::Bool(false)],
            vec![Literal::Int(1), Literal::Bool(false)],
            vec![Literal::Int(0), Literal::Bool(true)],
            vec![Literal::Int(1), Literal::Bool(true)],
        ]
    );
    let none: Vec<Vec<Literal>> = Vec::new();
    assert_eq!(all_valuations(&none, 0), vec![Vec::<Literal>::new()]);
}

#[test]
fn game_for_a_replaced_module() {
    let m = example();
    let g = SynthesisGame::build(&m, RepairModule::ExistingModule { index: 1 }).ok().unwrap();
    assert_eq!(
        g.repair_controlled,
        vec!["[Choose_go_false]", "[Choose_go_true]", "[Choose_stop_false]", "[Choose_stop_true]"]
    );
    assert_eq!(g.environment_controlled, vec!["env", "[go]", "[stop]"]);
    assert_eq!(g.game.variable_manager.variables.len(), 4);
    assert_eq!(g.game.variable_manager.variables[2].name.name, "action_choice");
    assert_eq!(g.game.variable_manager.variables[3].name.name, "phase");
    let ctrl = &g.game.modules[1];
    assert_eq!(ctrl.commands.len(), 4);
    assert_eq!(ctrl.commands[1].action.as_ref().unwrap().name, "Choose_go_true");
    assert_eq!(show(&ctrl.commands[1].guard), "((v3=0)&(v0<2))");
    let a: Vec<String> = ctrl.commands[1].updates[0].assignments.iter().map(|x| format!("v{}:={}", x.target.index, show(&x.value))).collect();
    assert_eq!(a, vec!["v3:=1", "v2:=0", "v1:=true"]);
    let env = &g.game.modules[0];
    assert_eq!(show(&env.commands[1].guard), "(((v3=1)&(v2=1))&(v0=2))");
    assert_eq!(env.commands[1].updates[0].assignments.len(), 2);
    assert_eq!(g.choose_actions[3].name, "Choose_stop_true");
    assert_eq!(g.choose_actions[3].action, "stop");
    assert_eq!(g.choose_actions[3].assignments, vec![(VariableReference::new(1), Literal::Bool(true))]);
}

#[test]
fn game_for_a_new_module() {
    let m = example();
    let g = SynthesisGame::build(&m, RepairModule::NewModule).ok().unwrap();
    assert_eq!(g.game.modules.len(), 3);
    assert_eq!(g.game.modules[2].name.name, "generated_repair_module");
    assert_eq!(g.repair_controlled, vec!["[Choose_go]", "[Choose_stop]"]);
    assert_eq!(g.environment_controlled, vec!["env", "[go]", "[stop]", "ctrl"]);
}

#[test]
fn game_errors() {
    let mut m = example();
    m.variable_manager.variables[0].name = ident("phase");
    assert_eq!(SynthesisGame::build(&m, RepairModule::NewModule).err(), Some(SynthesisError::PhaseVariableTaken));
    let mut m = example();
    m.variable_manager.variables[0].name = ident("action_choice");
    assert_eq!(SynthesisGame::build(&m, RepairModule::NewModule).err(), Some(SynthesisError::ChoiceVariableTaken));
    let mut m = example();
    m.modules[0].name = ident("generated_repair_module");
    assert_eq!(SynthesisGame::build(&m, RepairModule::NewModule).err(), Some(SynthesisError::ModuleNameTaken));
    let mut m = example();
    m.variable_manager.variables[1].range = VariableRange::UnboundedInt { span: sp() };
    assert_eq!(
        SynthesisGame::build(&m, RepairModule::ExistingModule { index: 1 }).err(),
        Some(SynthesisError::Domain { variable: 1, kind: DomainError::UnboundedInteger })
    );
    let mut m = example();
    m.variable_manager.variables[1].range = VariableRange::BoundedInt { min: lit(1), max: lit(0), span: sp() };
    assert_eq!(
        SynthesisGame::build(&m, RepairModule::ExistingModule { index: 1 }).err(),
        Some(SynthesisError::EmptyDomain { variable: 1 })
    );
}

#[test]
fn game_text_becomes_a_stochastic_game() {
    let text = game_source("mdp\n\nmodule m\nendmodule // mdp", &vec!["[a]".to_string(), "[b]".to_string()], &vec!["m".to_string()]);
    assert_eq!(
        text,
        "smg\n\nmodule m\nendmodule // mdp\n\nplayer Repair\n    [a], [b]\nendplayer\n\nplayer Environment\n    m\nendplayer"
    );
    let plain = game_source("dtmc", &Vec::new(), &Vec::new());
    assert_eq!(plain, "dtmc\n\nplayer Repair\n    \nendplayer\n\nplayer Environment\n    \nendplayer");
}

#[test]
fn game_properties_name_the_repair_player() {
    let p = game_properties(&vec!["P>=0.5 [F s=2]".to_string(), "P<1 [G s>0]".to_string()]);
    assert_eq!(p, "<<Repair>> P>=0.5 [F s=2];\n<<Repair>> P<1 [G s>0]");
    assert_eq!(game_properties(&Vec::new()), "");
}

#[test]
fn verdicts_of_prism_games() {
    assert_eq!(synthesis_verdict("...\nResult: true (value)\n"), Ok(true));
    assert_eq!(synthesis_verdict("Result: false"), Ok(false));
    assert_eq!(synthesis_verdict("Result: true\nResult: false"), Err(Inconclusive { was_true: true, was_false: true }));
    assert_eq!(synthesis_verdict("nothing"), Err(Inconclusive { was_true: false, was_false: false }));
}

#[test]
fn states_file_is_read() {
    let f = StateFile::from_sta("(s,c,phase)\n0:(0,false,0)\n1:(-2,true,1)\n").ok().unwrap();
    assert_eq!(f.states.len(), 2);
    assert_eq!(f.states[1].get_int("s"), Some(-2));
    assert_eq!(f.states[1].get_bool("c"), Some(true));
    assert_eq!(f.states[1].get_bool("s"), None);
    assert_eq!(f.states[0].get_int("missing"), None);
}

#[test]
fn states_file_errors() {
    assert_eq!(StateFile::from_sta("").err(), Some(FileError::Empty));
    assert_eq!(StateFile::from_sta("x\n").err(), Some(FileError::MalformedHeader));
    assert_eq!(StateFile::from_sta("(a)\n0(1)").err(), Some(FileError::MissingColon { line: 1 }));
    assert_eq!(StateFile::from_sta("(a)\n1:(1)").err(), Some(FileError::WrongIndex { line: 1 }));
    assert_eq!(StateFile::from_sta("(a)\n0:x").err(), Some(FileError::MalformedValues { line: 1 }));
    assert_eq!(StateFile::from_sta("(a)\n0:(1)\n1:(yes)").err(), Some(FileError::NotAValue { line: 2 }));
}

#[test]
fn strategy_file_is_read() {
    let g = InducedGame::from_strat("header\n0 1 0.5 Choose_go_true\n1 0 1\n").ok().unwrap();
    assert_eq!(g.entries.len(), 2);
    assert_eq!((g.entries[0].from, g.entries[0].to), (0, 1));
    assert_eq!(g.entries[0].probability, "0.5");
    assert_eq!(g.entries[0].action_name, Some("Choose_go_true".to_string()));
    assert_eq!(g.entries[1].action_name, None);
    assert!(InducedGame::from_strat("").ok().unwrap().entries.is_empty());
}

#[test]
fn strategy_file_errors() {
    assert_eq!(InducedGame::from_strat("h\nx 1 1").err(), Some(FileError::NotAnIndex { line: 1 }));
    assert_eq!(InducedGame::from_strat("h\n0").err(), Some(FileError::MissingComponent { line: 1 }));
    assert_eq!(InducedGame::from_strat("h\n0 1").err(), Some(FileError::MissingComponent { line: 1 }));
    assert_eq!(InducedGame::from_strat("h\n0 1 1\n2 y 1").err(), Some(FileError::NotAnIndex { line: 2 }));
}

#[test]
fn collector_lists_every_valuation_of_the_inputs() {
    let m = example();
    let c = VisibleVariableCollector::new(&vec![VariableReference::new(0), VariableReference::new(1)], &m.variable_manager).ok().unwrap();
    let names: Vec<String> = c.entries.iter().map(|e| e.name.clone()).collect();
    assert_eq!(names, vec!["0,false", "1,false", "2,false", "0,true", "1,true", "2,true"]);
    assert_eq!(show(&c.entries[4].condition), "((v0=1)&(v1=true))");
    assert_eq!(c.variable_names, vec!["s", "c"]);
    let empty = VisibleVariableCollector::new(&Vec::new(), &m.variable_manager).ok().unwrap();
    assert_eq!(empty.entries.len(), 1);
    assert_eq!(show(&empty.entries[0].condition), "true");
}

#[test]
fn strategy_becomes_a_controller() {
    let m = example();
    let module = RepairModule::ExistingModule { index: 1 };
    let g = SynthesisGame::build(&m, module).ok().unwrap();
    let states = StateFile::from_sta("(s,c,action_choice,phase)\n0:(0,false,0,0)\n1:(0,true,0,1)\n2:(2,false,1,0)\n").ok().unwrap();
    let strategy = InducedGame::from_strat("x\n0 1 1 Choose_go_true\n1 0 1 go\n2 0 1 Choose_stop_false\n2 0 1 Choose_stop_true\n").ok().unwrap();
    let out = synthesised_model(&m, module, &g, &states, &strategy).ok().unwrap();
    let ctrl = &out.model.modules[1];
    assert_eq!(ctrl.commands.len(), 2);
    assert_eq!(ctrl.commands[0].action.as_ref().unwrap().name, "go");
    assert_eq!(show(&ctrl.commands[0].guard), "(v0=0)");
    assert_eq!(show(&ctrl.commands[0].updates[0].probability), "1");
    assert_eq!(ctrl.commands[0].updates[0].assignments.len(), 1);
    assert_eq!(show(&ctrl.commands[0].updates[0].assignments[0].value), "true");
    assert_eq!(ctrl.commands[1].action.as_ref().unwrap().name, "stop");
    assert_eq!(show(&ctrl.commands[1].updates[0].assignments[0].value), "false");
    assert_eq!(out.ambiguous.len(), 1);
    assert_eq!(out.ambiguous[0].0, "2");
    assert_eq!(out.ambiguous[0].1, vec!["Choose_stop_false", "Choose_stop_true"]);
    assert_eq!(out.model.modules[0].commands.len(), 2);
}

#[test]
fn strategy_errors() {
    let m = example();
    let module = RepairModule::ExistingModule { index: 1 };
    let g = SynthesisGame::build(&m, module).ok().unwrap();
    let states = StateFile::from_sta("(s,phase)\n0:(0,0)\n1:(1,true)\n2:(9,0)\n").ok().unwrap();
    let run = |text: &str| synthesised_model(&m, module, &g, &states, &InducedGame::from_strat(text).ok().unwrap()).err();
    assert_eq!(run("x\n5 0 1 a"), Some(SynthesisError::StateOutOfRange { transition: 0 }));
    assert_eq!(run("x\n1 0 1 a"), Some(SynthesisError::MissingPhase { transition: 0 }));
    assert_eq!(run("x\n2 0 1 a"), Some(SynthesisError::UnknownValuation { transition: 0 }));
    assert_eq!(run("x\n0 0 1"), Some(SynthesisError::MissingAction { transition: 0 }));
    assert_eq!(run("x\n0 0 1 nonsense"), Some(SynthesisError::UnknownChooseAction { entry: 0 }));
}

#[test]
fn new_controller_module_is_added() {
    let m = example();
    let g = SynthesisGame::build(&m, RepairModule::NewModule).ok().unwrap();
    let states = StateFile::from_sta("(s,c,phase)\n0:(1,false,0)\n").ok().unwrap();
    let strategy = InducedGame::from_strat("x\n0 0 1 Choose_go\n").ok().unwrap();
    let out = synthesised_model(&m, RepairModule::NewModule, &g, &states, &strategy).ok().unwrap();
    assert_eq!(out.model.modules.len(), 3);
    assert_eq!(out.model.modules[2].name.name, "synthesised_module");
    assert_eq!(out.model.modules[2].commands.len(), 1);
    assert_eq!(show(&out.model.modules[2].commands[0].guard), "((v0=1)&(v1=false))");
    assert!(out.model.modules[2].commands[0].updates[0].assignments.is_empty());
}
