use schemec::nodes::{Env, ExprLit, LExEnv, LExpr, LamType};

fn var(s: &str) -> LExpr {
    LExpr::Var(s.to_string())
}

#[test]
fn surface_lambda_renders_as_s_expression() {
    let e = LExpr::Lam(
        vec!["a".to_string(), "b".to_string()],
        vec![var("a"), LExpr::Lit(ExprLit::Int(5))],
    );
    assert_eq!(e.to_code_string(), "(lambda (a b) a 5)".to_string());
}

#[test]
fn application_renders_with_operands_spaced() {
    let e = LExpr::App(Box::new(var("f")), vec![var("a"), var("b")]);
    assert_eq!(e.to_code_string(), "(f a b)".to_string());
}

#[test]
fn zero_parameter_lambda_renders_empty_parameter_list() {
    let e = LExpr::Lam(vec![], vec![LExpr::Lit(ExprLit::Void)]);
    assert_eq!(e.to_code_string(), "(lambda () void)".to_string());
}

#[test]
fn unary_forms_render_like_the_surface_ones() {
    let lam = LExpr::LamOneOne("x".to_string(), Box::new(var("x")));
    assert_eq!(lam.to_code_string(), "(lambda (x) x)".to_string());
    let app = LExpr::AppOne(Box::new(var("f")), Box::new(var("a")));
    assert_eq!(app.to_code_string(), "(f a)".to_string());
}

#[test]
fn cps_forms_render_with_continuations() {
    let lam = LExpr::LamOneOneCont(
        "x".to_string(),
        "k".to_string(),
        Box::new(LExpr::AppOne(Box::new(var("k")), Box::new(var("x")))),
    );
    assert_eq!(lam.to_code_string(), "(lambda (x k) (k x))".to_string());
    let call = LExpr::AppOneCont(Box::new(var("f")), Box::new(var("a")), Box::new(var("k")));
    assert_eq!(call.to_code_string(), "(f a k)".to_string());
}

#[test]
fn negative_integer_renders_with_sign() {
    let e = LExpr::Lit(ExprLit::Int(-42));
    assert_eq!(e.to_code_string(), "-42".to_string());
    let b = LExpr::BuiltinIdent("println_func".to_string(), LamType::TwoArg);
    assert_eq!(b.to_code_string(), "println_func".to_string());
}

#[test]
fn annotated_expressions_render_with_lambda_references() {
    let e = LExEnv::App2 {
        rator: Box::new(LExEnv::LamRef { id: 3 }),
        rand: Box::new(LExEnv::Lit { val: ExprLit::Int(1) }),
        cont: Box::new(LExEnv::Var {
            name: "k".to_string(),
            global: true,
            env: Env::empty(),
        }),
        env: Env::empty(),
    };
    assert_eq!(e.to_code_string(), "(lambda:3 1 k)".to_string());
}

#[test]
fn annotated_lambda_renders_both_parameters() {
    let e = LExEnv::LamCont {
        arg: "x".to_string(),
        cont: "k".to_string(),
        expr: Box::new(LExEnv::Var {
            name: "x".to_string(),
            global: false,
            env: Env::empty(),
        }),
        env: Env::empty(),
        id: 0,
    };
    assert_eq!(e.to_code_string(), "(lambda (x k) x)".to_string());
}
