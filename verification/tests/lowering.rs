use js2cpp::ast::{DeclKind, Expr, Module, Stmt};
use js2cpp::globals::{io_global, json_global, symbol_global, GlobalBinding, GlobalRegistry};
use js2cpp::manifest::PropertyManifest;
use js2cpp::transpiler::Transpiler;
use js2cpp::value::BinOp;
use js2cpp::CompileError;

fn standard() -> Transpiler {
    let mut t = Transpiler::new();
    t.globals.register(io_global()).unwrap();
    t.globals.register(json_global()).unwrap();
    t.globals.register(symbol_global()).unwrap();
    t
}

fn module(body: Vec<Stmt>) -> Module {
    Module { body }
}

fn ident(x: &str) -> Expr {
    Expr::Ident(String::from(x))
}

#[test]
fn empty_module_exact_text() {
    let t = standard();
    let out = t.transpile_module(&module(vec![])).unwrap();
    assert_eq!(out, "int main(){return 0;}");
}

#[test]
fn duplicate_global_binding_rejected_at_construction() {
    let mut reg = GlobalRegistry::new();
    reg.register(io_global()).unwrap();
    assert_eq!(reg.register(io_global()), Err(CompileError::DuplicateBindingName));
    assert_eq!(reg.len(), 1);
    // the custom fragment did not replace the first registration
    let clash = GlobalBinding {
        name: String::from("IO"),
        codegen: String::from("other()"),
    };
    assert_eq!(reg.register(clash), Err(CompileError::DuplicateBindingName));
    assert_eq!(reg.lookup_fragment(&String::from("IO")), Some(String::from("js_rt_io()")));
}

#[test]
fn let_reference_before_declaration_is_temporal_order_violation() {
    // { console_like_read(v); let v = 1; }
    let t = {
        let mut t = standard();
        t.globals
            .register(GlobalBinding {
                name: String::from("console_like_read"),
                codegen: String::from("js_rt_read()"),
            })
            .unwrap();
        t
    };
    let m = module(vec![Stmt::Block(vec![
        Stmt::ExprStmt(Expr::Call(
            Box::new(ident("console_like_read")),
            vec![ident("v")],
        )),
        Stmt::Decl(DeclKind::Let, String::from("v"), Some(Expr::Num(1))),
    ])]);
    assert_eq!(
        t.transpile_module(&m),
        Err(CompileError::TemporalOrderViolation(String::from("v")))
    );
}

#[test]
fn var_hoisting_allows_use_before_declaration() {
    let t = standard();
    let m = module(vec![
        Stmt::ExprStmt(Expr::Assign(String::from("x"), Box::new(Expr::Num(1)))),
        Stmt::Decl(DeclKind::Var, String::from("x"), None),
    ]);
    let out = t.transpile_module(&m).unwrap();
    assert!(out.contains("JSBox js_x=JSBox(JSValue::undefined());"));
    assert!(out.contains("(js_x.set(JSValue((double)1)));"));
}

#[test]
fn unresolved_identifier_fails_fast() {
    let t = standard();
    let m = module(vec![Stmt::ExprStmt(ident("nope"))]);
    assert_eq!(
        t.transpile_module(&m),
        Err(CompileError::UnresolvedIdentifier(String::from("nope")))
    );
}

#[test]
fn global_binding_resolves_to_its_fragment() {
    let t = standard();
    let m = module(vec![Stmt::ExprStmt(ident("JSON"))]);
    let out = t.transpile_module(&m).unwrap();
    assert!(out.contains("js_rt_json();"));
}

fn try_throw_module() -> Module {
    // try { throw 1; } catch (e) {}
    module(vec![Stmt::Try(
        vec![Stmt::Throw(Expr::Num(1))],
        String::from("e"),
        vec![],
        vec![],
    )])
}

#[test]
fn exceptions_disabled_lowers_without_native_constructs() {
    let mut t = standard();
    t.feature_exceptions = false;
    let out = t.transpile_module(&try_throw_module()).unwrap();
    assert!(!out.contains("throw"));
    assert!(!out.contains("try"));
    assert!(!out.contains("catch"));
    // the explicit propagation convention carries the thrown value
    assert!(out.contains("__err_0=JSValue((double)1);goto __handler_0;"));
    assert!(out.contains("__handler_0:{JSBox js_e=JSBox(__err_0);}"));
}

#[test]
fn exceptions_enabled_lowers_to_native_constructs() {
    let t = standard();
    let out = t.transpile_module(&try_throw_module()).unwrap();
    assert!(out.contains("try{"));
    assert!(out.contains("throw JSValue((double)1);"));
    assert!(out.contains("catch(JSValue __caught){JSBox js_e=JSBox(__caught);}"));
}

#[test]
fn throw_without_enclosing_try_is_error_when_exceptions_disabled() {
    let mut t = standard();
    t.feature_exceptions = false;
    let m = module(vec![Stmt::Throw(Expr::Num(1))]);
    assert!(matches!(
        t.transpile_module(&m),
        Err(CompileError::UnsupportedConstruct(_))
    ));
}

#[test]
fn property_access_requires_manifest_entry() {
    let t = standard();
    let m = module(vec![
        Stmt::Decl(DeclKind::Var, String::from("a"), None),
        Stmt::ExprStmt(Expr::Member(Box::new(ident("a")), String::from("b"))),
    ]);
    assert_eq!(
        t.transpile_module(&m),
        Err(CompileError::UnknownProperty(String::from("b")))
    );
}

#[test]
fn property_access_lowers_through_manifest_lookup() {
    let mut t = standard();
    t.manifest = Some(PropertyManifest::from_names(vec![String::from("b")]));
    let m = module(vec![
        Stmt::Decl(DeclKind::Var, String::from("a"), None),
        Stmt::ExprStmt(Expr::Member(Box::new(ident("a")), String::from("b"))),
    ]);
    let out = t.transpile_module(&m).unwrap();
    assert!(out.contains("(*prop(JSValue(\"b\"),js_a));"));
}

#[test]
fn while_loop_and_break() {
    let t = standard();
    let m = module(vec![Stmt::While(Expr::Bool(true), vec![Stmt::Break(None)])]);
    let out = t.transpile_module(&m).unwrap();
    assert!(out.contains("while((JSValue(true)).coerce_to_bool()){break;}"));
}

#[test]
fn break_outside_loop_is_error() {
    let t = standard();
    let m = module(vec![Stmt::Break(None)]);
    assert!(matches!(
        t.transpile_module(&m),
        Err(CompileError::UnsupportedConstruct(_))
    ));
}

#[test]
fn labeled_loop_break_and_continue() {
    let t = standard();
    let m = module(vec![Stmt::Labeled(
        String::from("l"),
        Box::new(Stmt::While(
            Expr::Bool(true),
            vec![Stmt::Continue(Some(String::from("l"))), Stmt::Break(Some(String::from("l")))],
        )),
    )]);
    let out = t.transpile_module(&m).unwrap();
    assert!(out.contains("goto lbl_l_continue;"));
    assert!(out.contains("goto lbl_l_break;"));
    assert!(out.contains("lbl_l_continue:;}lbl_l_break:;"));
}

#[test]
fn unknown_label_is_error() {
    let t = standard();
    let m = module(vec![Stmt::While(
        Expr::Bool(true),
        vec![Stmt::Break(Some(String::from("nope")))],
    )]);
    assert_eq!(
        t.transpile_module(&m),
        Err(CompileError::UnresolvedIdentifier(String::from("nope")))
    );
}

#[test]
fn functions_capture_and_return() {
    let t = standard();
    // var f = function (a) { return a + 1; }; f(2);
    let m = module(vec![
        Stmt::Decl(
            DeclKind::Var,
            String::from("f"),
            Some(Expr::Func(
                vec![String::from("a")],
                vec![Stmt::Return(Some(Expr::Bin(
                    BinOp::Add,
                    Box::new(ident("a")),
                    Box::new(Expr::Num(1)),
                )))],
            )),
        ),
        Stmt::ExprStmt(Expr::Call(Box::new(ident("f")), vec![Expr::Num(2)])),
    ]);
    let out = t.transpile_module(&m).unwrap();
    assert!(out.contains("JSValue::function([=](std::vector<JSValue> args)->JSValue{"));
    assert!(out.contains("JSBox js_a=JSBox(args[0]);"));
    assert!(out.contains("return (js_a+JSValue((double)1));"));
    assert!(out.contains("(js_f).call({JSValue((double)2)})"));
}

#[test]
fn return_outside_function_is_error() {
    let t = standard();
    let m = module(vec![Stmt::Return(None)]);
    assert!(matches!(
        t.transpile_module(&m),
        Err(CompileError::UnsupportedConstruct(_))
    ));
}

#[test]
fn string_literals_are_escaped() {
    let t = standard();
    let m = module(vec![Stmt::ExprStmt(Expr::Str(String::from("a\"b\\c")))]);
    let out = t.transpile_module(&m).unwrap();
    assert!(out.contains("JSValue(\"a\\\"b\\\\c\");"));
}

#[test]
fn for_loop_lowers_to_native_for() {
    let t = standard();
    // a counting loop with a let head, a test and an update
    let m = module(vec![Stmt::For(
        Some(Box::new(Stmt::Decl(
            DeclKind::Let,
            String::from("i"),
            Some(Expr::Num(0)),
        ))),
        Some(Expr::Bin(
            BinOp::Lt,
            Box::new(ident("i")),
            Box::new(Expr::Num(3)),
        )),
        Some(Expr::Assign(
            String::from("i"),
            Box::new(Expr::Bin(
                BinOp::Add,
                Box::new(ident("i")),
                Box::new(Expr::Num(1)),
            )),
        )),
        vec![Stmt::Break(None)],
    )]);
    let out = t.transpile_module(&m).unwrap();
    let head = "{JSBox js_i=JSBox(JSValue((double)0));";
    let cond = "(js_i<JSValue((double)3))";
    let upd = "(js_i.set((js_i+JSValue((double)1))))";
    let expect = format!("{}for(;{};{}){}", head, cond, upd, "{break;}}");
    assert!(out.contains(&expect));
}

#[test]
fn for_head_let_is_scoped_to_the_loop() {
    let t = standard();
    // the head binding is not visible after the loop
    let m = module(vec![
        Stmt::For(
            Some(Box::new(Stmt::Decl(
                DeclKind::Let,
                String::from("i"),
                Some(Expr::Num(0)),
            ))),
            None,
            None,
            vec![Stmt::Break(None)],
        ),
        Stmt::ExprStmt(ident("i")),
    ]);
    assert_eq!(
        t.transpile_module(&m),
        Err(CompileError::UnresolvedIdentifier(String::from("i")))
    );
}

#[test]
fn labeled_do_while_and_for() {
    let t = standard();
    let m = module(vec![
        Stmt::Labeled(
            String::from("l"),
            Box::new(Stmt::DoWhile(
                vec![Stmt::Break(Some(String::from("l")))],
                Expr::Bool(false),
            )),
        ),
        Stmt::Labeled(
            String::from("m"),
            Box::new(Stmt::For(
                None,
                None,
                None,
                vec![Stmt::Continue(Some(String::from("m")))],
            )),
        ),
    ]);
    let out = t.transpile_module(&m).unwrap();
    assert!(out.contains(
        "do{goto lbl_l_break;lbl_l_continue:;}while((JSValue(false)).coerce_to_bool());lbl_l_break:;"
    ));
    assert!(out.contains("{for(;;){goto lbl_m_continue;lbl_m_continue:;}lbl_m_break:;}"));
}

#[test]
fn finally_runs_on_both_paths_with_native_exceptions() {
    let t = standard();
    let m = module(vec![Stmt::Try(
        vec![Stmt::ExprStmt(Expr::Num(1))],
        String::from("e"),
        vec![],
        vec![Stmt::ExprStmt(Expr::Num(2))],
    )]);
    let out = t.transpile_module(&m).unwrap();
    assert!(out.contains("catch(...)"));
    assert!(out.contains("{JSValue((double)2);}throw;"));
    // the finalizer text stands on the exceptional path and the normal path
    assert_eq!(out.matches("{JSValue((double)2);}").count(), 2);
}

#[test]
fn abrupt_exit_across_finally_is_rejected() {
    let t = standard();
    // try { throw 1; } catch (e) {} finally { 2; }
    let m = module(vec![Stmt::Try(
        vec![Stmt::Throw(Expr::Num(1))],
        String::from("e"),
        vec![],
        vec![Stmt::ExprStmt(Expr::Num(2))],
    )]);
    assert_eq!(
        t.transpile_module(&m),
        Err(CompileError::UnsupportedConstruct(String::from(
            "abrupt exit across finally"
        )))
    );
}

#[test]
fn numeric_literal_outside_fragment_is_rejected() {
    let t = standard();
    let m = module(vec![Stmt::ExprStmt(Expr::Num(9007199254740993))]);
    assert!(matches!(
        t.transpile_module(&m),
        Err(CompileError::UnsupportedConstruct(_))
    ));
    let t2 = standard();
    let m2 = module(vec![Stmt::ExprStmt(Expr::Num(9007199254740992))]);
    assert!(t2.transpile_module(&m2).is_ok());
}

#[test]
fn if_else_and_do_while() {
    let t = standard();
    let m = module(vec![
        Stmt::If(Expr::Bool(true), vec![], vec![]),
        Stmt::DoWhile(vec![], Expr::Bool(false)),
    ]);
    let out = t.transpile_module(&m).unwrap();
    assert!(out.contains("if((JSValue(true)).coerce_to_bool()){}else{}"));
    assert!(out.contains("do{}while((JSValue(false)).coerce_to_bool());"));
}
