use std::rc::Rc;

use nakati::ast::{Ast, AstNode, Spanned};
use nakati::common::Span;
use nakati::interpreter::{
    make_default_imports, Halt, Interpreter, InterpreterError, Module, Stop, Value, World,
};
use nakati::lexer::Lexer;
use nakati::module::ModuleLabel;
use nakati::parser::Parser;
use nakati::source::Source;

fn node(ast: Ast) -> AstNode {
    AstNode::new(ast, Span::new_string(""))
}

fn name(text: &str) -> Spanned<String> {
    Spanned::new(text.to_string(), Span::new_string(text))
}

fn var(text: &str) -> AstNode {
    node(Ast::VariableAccess(text.to_string()))
}

fn main_fn(body: AstNode) -> AstNode {
    node(Ast::Function {
        public: false,
        name: name("main"),
        args: vec![],
        return_type: None,
        body,
        variadic: false,
    })
}

fn run(program: AstNode) -> (Result<Value, Halt>, Vec<String>) {
    let (r, world) = Interpreter::interpret(program, ModuleLabel::from_special("main"));
    (r, world.output)
}

fn run_text(text: &str) -> (Result<Value, Halt>, Vec<String>) {
    let mut parser = Parser::new(Lexer::new(Rc::new(Source::new("<test>", text))));
    let tree = match parser.parse() {
        Ok(t) => t,
        Err(_) => panic!("parse failed"),
    };
    run(tree)
}

#[test]
fn print_with_no_arguments_writes_two_empty_lines() {
    let (r, out) = run_text("static life: Int = 41; fn main() { print(); }");
    assert!(matches!(r, Ok(Value::Nothing)));
    assert_eq!(out, vec!["", ""]);
}

#[test]
fn a_program_without_main_does_nothing() {
    let (r, out) = run_text("static a: Int = 1;");
    assert!(matches!(r, Ok(Value::Nothing)));
    assert!(out.is_empty());
}

#[test]
fn imported_names_and_module_members_are_printed() {
    let program = node(Ast::Program(vec![
        node(Ast::Import {
            names: vec![(name("life"), Some(name("answer")))],
            module: name("#io"),
            module_alias: Some(name("io")),
        }),
        main_fn(node(Ast::Block {
            statements: vec![
                node(Ast::Call(var("print"), vec![var("answer")])),
                node(Ast::Call(
                    var("print"),
                    vec![
                        node(Ast::MemberAccess(var("io"), name("life"))),
                        node(Ast::String("is the answer".to_string())),
                    ],
                )),
            ],
            return_value: None,
        })),
    ]));
    let (r, out) = run(program);
    assert!(matches!(r, Ok(Value::Nothing)));
    assert_eq!(out, vec!["42", "42 is the answer"]);
}

#[test]
fn functions_see_their_parameters_and_later_definitions() {
    let show = node(Ast::Function {
        public: false,
        name: name("show"),
        args: vec![("x".to_string(), node(Ast::TypeName("Int".to_string())))],
        return_type: None,
        body: node(Ast::Call(var("print"), vec![var("x"), var("later")])),
        variadic: false,
    });
    let program = node(Ast::Program(vec![
        show,
        main_fn(node(Ast::Call(var("show"), vec![node(Ast::Integer(7))]))),
        node(Ast::Static {
            public: false,
            name: name("later"),
            type_: node(Ast::TypeName("Int".to_string())),
            body: node(Ast::Integer(8)),
        }),
    ]));
    let (r, out) = run(program);
    assert!(matches!(r, Ok(Value::Nothing)));
    assert_eq!(out, vec!["7 8"]);
}

#[test]
fn calling_with_too_few_arguments_is_an_argument_error() {
    let (r, _) = run_text("fn f(a: Int) = a; fn main() { f(); }");
    match r {
        Err(Halt::Error(InterpreterError::ArgumentError(m, _))) => {
            assert_eq!(m, "<function \"f\"> takes 1 argument but 0 were given")
        }
        other => panic!("unexpected result: {:?}", other),
    }
}

#[test]
fn an_undefined_variable_is_reported() {
    let (r, _) = run_text("fn main() { x; }");
    match r {
        Err(Halt::Error(InterpreterError::UndefinedVariable(m, _))) => assert_eq!(m, "x"),
        other => panic!("unexpected result: {:?}", other),
    }
}

#[test]
fn calling_a_value_that_is_no_function_is_a_type_error() {
    let program = node(Ast::Program(vec![
        node(Ast::Static {
            public: false,
            name: name("n"),
            type_: node(Ast::TypeName("Int".to_string())),
            body: node(Ast::Integer(3)),
        }),
        main_fn(AstNode::new(Ast::Call(var("n"), vec![]), Span::new_string("n()"))),
    ]));
    let (r, _) = run(program);
    match r {
        Err(Halt::Error(InterpreterError::TypeError(m, _))) => assert_eq!(m, "`` is not a function"),
        other => panic!("unexpected result: {:?}", other),
    }
}

#[test]
fn a_main_that_is_no_function_stops() {
    let (r, _) = run_text("static main: Int = 5;");
    assert!(matches!(r, Err(Halt::Stop(Stop::MissingSpan))));
}

#[test]
fn assignment_is_not_carried_out_yet() {
    let (r, _) = run_text("static y: Int = 1; fn main() { y = 2; }");
    assert!(matches!(r, Err(Halt::Stop(Stop::NotImplemented))));
}

#[test]
fn importing_a_missing_name_is_reported() {
    let program = node(Ast::Program(vec![node(Ast::Import {
        names: vec![(name("nothing"), None)],
        module: name("#io"),
        module_alias: None,
    })]));
    let (r, _) = run(program);
    match r {
        Err(Halt::Error(InterpreterError::UndefinedVariable(m, _))) => assert_eq!(
            m,
            "Cannot import \"nothing\" from module \"#io\" as it is not defined"
        ),
        other => panic!("unexpected result: {:?}", other),
    }
}

#[test]
fn importing_an_unloaded_module_stops() {
    let program = node(Ast::Program(vec![node(Ast::Import {
        names: vec![(name("x"), None)],
        module: name("<elsewhere>"),
        module_alias: None,
    })]));
    assert!(matches!(run(program).0, Err(Halt::Stop(Stop::ModuleNotLoaded))));
    let program = node(Ast::Program(vec![node(Ast::Import {
        names: vec![(name("x"), None)],
        module: name(":local"),
        module_alias: None,
    })]));
    assert!(matches!(run(program).0, Err(Halt::Stop(Stop::IncompleteLabel))));
}

#[test]
fn member_of_a_number_is_a_type_error() {
    let program = node(Ast::Program(vec![main_fn(node(Ast::MemberAccess(
        node(Ast::Integer(5)),
        name("x"),
    )))]));
    match run(program).0 {
        Err(Halt::Error(InterpreterError::TypeError(m, _))) => {
            assert_eq!(m, "Cannot access field \"x\" on Integer(5)")
        }
        other => panic!("unexpected result: {:?}", other),
    }
}

#[test]
fn a_let_binds_a_variable() {
    let (r, out) = run_text("fn main() { let x = 5; x }");
    assert!(matches!(r, Ok(Value::Nothing)));
    assert!(out.is_empty());
    let program = node(Ast::Program(vec![main_fn(node(Ast::Block {
        statements: vec![node(Ast::Let {
            pattern: node(Ast::Integer(1)),
            type_: None,
            body: node(Ast::Integer(2)),
        })],
        return_value: None,
    }))]));
    match run(program).0 {
        Err(Halt::Error(InterpreterError::PatternError(m, _, _))) => {
            assert_eq!(m, "I dunno what to do with that pattern tbh")
        }
        other => panic!("unexpected result: {:?}", other),
    }
}

#[test]
fn printing_a_boolean_stops() {
    let program = node(Ast::Program(vec![main_fn(node(Ast::Call(
        var("print"),
        vec![node(Ast::Call(var("print"), vec![var("print")]))],
    )))]));
    let (r, out) = run(program);
    assert!(matches!(r, Ok(Value::Nothing)));
    assert_eq!(out, vec!["<function \"print\">", "<function \"print\">"]);
    let program = node(Ast::Program(vec![main_fn(node(Ast::Boolean(true)))]));
    assert!(matches!(run(program).0, Err(Halt::Stop(Stop::NotImplemented))));
}

#[test]
fn large_integer_literals_stop() {
    let program = node(Ast::Program(vec![main_fn(node(Ast::Integer(u128::MAX)))]));
    assert!(matches!(run(program).0, Err(Halt::Stop(Stop::IntegerTooLarge))));
}

#[test]
fn evaluation_with_few_steps_is_exhausted() {
    let program = node(Ast::Program(vec![main_fn(node(Ast::Integer(1)))]));
    let (r, _) = Interpreter::evaluate_module(
        Rc::new(program),
        ModuleLabel::from_special("main"),
        make_default_imports(),
        1,
    );
    assert!(matches!(r, Err(Halt::Exhausted)));
    let program = node(Ast::Program(vec![main_fn(node(Ast::Integer(1)))]));
    let (r, _) = Interpreter::evaluate_module(
        Rc::new(program),
        ModuleLabel::from_special("main"),
        make_default_imports(),
        2,
    );
    assert_eq!(r.ok(), Some(2));
}

#[test]
fn scopes_read_back_what_was_written() {
    let mut world = World::new();
    let outer = world.new_scope(None);
    let inner = world.new_scope(Some(outer));
    assert!(world.define(outer, "a", Value::Integer(1)).is_ok());
    assert!(matches!(world.get(inner, "a"), Some(Value::Integer(1))));
    assert!(world.define(inner, "a", Value::Integer(2)).is_ok());
    assert!(matches!(world.get(inner, "a"), Some(Value::Integer(2))));
    assert!(matches!(world.get(outer, "a"), Some(Value::Integer(1))));
    assert!(world.update(inner, "a", Value::Integer(3)).is_ok());
    assert!(matches!(world.get(inner, "a"), Some(Value::Integer(3))));
    assert!(!world.has(outer, "b"));
    world.freeze(outer);
    match world.define(outer, "b", Value::Nothing) {
        Err(InterpreterError::MutabilityError(m)) => {
            assert_eq!(m, "Cannot define variable \"b\" in frozen scope")
        }
        _ => panic!("expected a mutability error"),
    }
    match world.update(outer, "a", Value::Nothing) {
        Err(InterpreterError::MutabilityError(m)) => {
            assert_eq!(m, "Cannot mutate frozen variable \"a\"")
        }
        _ => panic!("expected a mutability error"),
    }
}

#[test]
fn values_compare_by_what_they_hold() {
    assert!(Value::Integer(3).same_as(&Value::Integer(3)));
    assert!(!Value::Integer(3).same_as(&Value::Integer(4)));
    assert!(!Value::Integer(3).same_as(&Value::String("3".to_string())));
    assert!(Value::String("a".to_string()).same_as(&Value::String("a".to_string())));
    assert!(Value::Nothing.same_as(&Value::Nothing));
    let m1 = Value::Module(Module { name: "a".to_string(), scope: 1 });
    let m2 = Value::Module(Module { name: "b".to_string(), scope: 1 });
    let m3 = Value::Module(Module { name: "a".to_string(), scope: 2 });
    assert!(m1.same_as(&m2));
    assert!(!m1.same_as(&m3));
}

#[test]
fn functions_compare_by_name_body_place_and_scope() {
    let world = make_default_imports();
    let p1 = world.get(0, "print").unwrap();
    let p2 = world.get(0, "print").unwrap();
    assert!(p1.same_as(&p2));

    let mut parser = Parser::new(Lexer::new(Rc::new(Source::new(
        "<test>",
        "fn f() = 1; fn g() = 1; fn main() { }",
    ))));
    let tree = match parser.parse() {
        Ok(t) => t,
        Err(_) => panic!("parse failed"),
    };
    let (scope, world) = Interpreter::evaluate_module(
        Rc::new(tree),
        ModuleLabel::from_special("main"),
        make_default_imports(),
        1000,
    );
    let scope = match scope {
        Ok(s) => s,
        Err(_) => panic!("module failed"),
    };
    let f1 = world.get(scope, "f").unwrap();
    let f2 = world.get(scope, "f").unwrap();
    let g = world.get(scope, "g").unwrap();
    assert!(f1.same_as(&f2));
    assert!(!f1.same_as(&g));
    assert!(!f1.same_as(&p1));
}
