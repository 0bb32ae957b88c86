use neura::dispatch::DeviceFunctions;
use neura::ir::{
    match_cases, match_count, Arm, BinaryOperator, Expression, Function, IntegerType, Pattern, Statement,
};

fn name(text: &str) -> Expression {
    Expression::name(text.to_owned())
}

fn arm(pattern: Pattern, body: Vec<Statement>) -> Arm {
    Arm { pattern, body }
}

fn dispatch(arms: Vec<Arm>) -> Statement {
    Statement::Match { selector: name("op"), arms }
}

fn constant(path: &str) -> Pattern {
    Pattern::Constant(path.to_owned())
}

#[test]
fn matches_are_counted_at_every_depth() {
    let body = vec![
        dispatch(vec![arm(Pattern::Integer(1), vec![dispatch(vec![])])]),
        Statement::If {
            condition: Expression::Bool(true),
            accept: vec![Statement::Block(vec![dispatch(vec![])])],
            reject: vec![Statement::Break],
        },
        Statement::Loop(vec![Statement::Continue]),
    ];
    assert_eq!(match_count(&body), 3);
    assert_eq!(match_count(&[]), 0);
}

#[test]
fn the_first_match_is_found_statement_by_statement() {
    let body = vec![
        Statement::Let { name: "x".to_owned(), mutable: false, value: Expression::u32(1) },
        Statement::If {
            condition: Expression::Bool(true),
            accept: vec![Statement::Loop(vec![dispatch(vec![arm(Pattern::Integer(7), vec![])])])],
            reject: vec![dispatch(vec![arm(Pattern::Default, vec![])])],
        },
        dispatch(vec![]),
    ];
    let arms = match_cases(&body).expect("a match");
    assert_eq!(arms.len(), 1);
    assert_eq!(arms[0].pattern, Pattern::Integer(7));
    assert!(match_cases(&[Statement::Break]).is_none());
}

#[test]
fn a_template_call_names_its_specialization() {
    let call = Expression::call("template_apply".to_owned(), vec![name("FACTOR"), name("x")]);
    let constants = vec![("FACTOR".to_owned(), 2), ("FACTOR".to_owned(), 3)];
    match call.specialized(&constants, "f32") {
        Expression::Call { name: called, arguments } => {
            assert_eq!(called, "apply_f32");
            assert!(matches!(arguments[0], Expression::Integer { value: 3, ty: IntegerType::Unsigned }));
            assert!(matches!(&arguments[1], Expression::Name(n) if n == "x"));
        }
        other => panic!("a call stays a call, not {other:?}"),
    }
    match Expression::call("plain".to_owned(), vec![]).specialized(&constants, "f32") {
        Expression::Call { name: called, .. } => assert_eq!(called, "plain"),
        other => panic!("a call stays a call, not {other:?}"),
    }
    let mut statement = Statement::Return(Some(Expression::Binary {
        op: BinaryOperator::Multiply,
        left: Box::new(name("FACTOR")),
        right: Box::new(name("y")),
    }));
    statement.specialize(&constants, "f32");
    match statement {
        Statement::Return(Some(Expression::Binary { left, .. })) => {
            assert!(matches!(*left, Expression::Integer { value: 3, .. }))
        }
        other => panic!("a return stays a return, not {other:?}"),
    }
}

fn function(name_text: &str, body: Vec<Statement>) -> Function {
    Function { name: name_text.to_owned(), arguments: vec![], result: None, body }
}

fn patterns(functions: &DeviceFunctions, name_text: &str) -> Vec<Pattern> {
    let function = functions.function_named(name_text).expect("the function is declared");
    match &function.body[0] {
        Statement::Match { arms, .. } => arms.iter().map(|arm| arm.pattern.clone()).collect(),
        other => panic!("a dispatcher starts with its match, not {other:?}"),
    }
}

#[test]
fn a_dispatcher_keeps_the_cases_it_is_specialized_for() {
    let mut functions = DeviceFunctions::new();
    functions.function(function(
        "dispatch",
        vec![dispatch(vec![arm(constant("Op::Add"), vec![]), arm(constant("Op::Mul"), vec![]), arm(Pattern::Default, vec![])])],
    ));
    assert!(functions.declares("dispatch"));
    functions.select("dispatch", "dispatch_mul");
    functions.retain_cases("dispatch_mul", &["Op::Mul".to_owned()]);
    assert_eq!(patterns(&functions, "dispatch_mul"), vec![constant("Op::Mul"), Pattern::Default]);
    assert_eq!(patterns(&functions, "dispatch").len(), 3, "the source keeps its cases");
    functions.insert_case("dispatch", arm(constant("Op::Sub"), vec![]));
    assert_eq!(
        patterns(&functions, "dispatch"),
        vec![constant("Op::Add"), constant("Op::Mul"), constant("Op::Sub"), Pattern::Default]
    );
}

#[test]
fn a_template_is_specialized_by_the_suffix_of_its_name() {
    let mut functions = DeviceFunctions::new();
    functions.function(function(
        "template_scale",
        vec![Statement::Expression(Expression::call("template_apply".to_owned(), vec![name("FACTOR")]))],
    ));
    functions.specialize("template_scale", "scale_wide", &[("FACTOR", 4)]);
    let specialized = functions.function_named("scale_wide").expect("the specialization is declared");
    match &specialized.body[0] {
        Statement::Expression(Expression::Call { name: called, arguments }) => {
            assert_eq!(called, "apply_wide");
            assert!(matches!(arguments[0], Expression::Integer { value: 4, .. }));
        }
        other => panic!("the body keeps its call, not {other:?}"),
    }
    assert!(!functions.defines("FACTOR"));
    functions.constant("FACTOR", 4);
    assert!(functions.defines("FACTOR"));
}
