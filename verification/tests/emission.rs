use schemec::c_ast::{CDecl, CExpr, CStmt, CType};
use schemec::codegen::{codegen, gen_env_ids, lambda_codegen, resolve_env, extract_lambdas};
use schemec::nodes::{Env, ExprLit, LExEnv, LExpr};
use schemec::numerals::u64_to_string;

fn obj_ptr() -> CType {
    CType::Ptr(Box::new(CType::Struct("object".to_string())))
}

#[test]
fn numerals_render_in_decimal() {
    assert_eq!(u64_to_string(0), "0".to_string());
    assert_eq!(u64_to_string(7), "7".to_string());
    assert_eq!(u64_to_string(42), "42".to_string());
    assert_eq!(u64_to_string(90102), "90102".to_string());
    assert_eq!(u64_to_string(u64::MAX), "18446744073709551615".to_string());
}

#[test]
fn lambda_reference_compiles_to_its_symbol() {
    let expr = LExEnv::LamRef { id: 5 };
    assert_eq!(codegen(&expr), CExpr::LitStr("lambda_5".to_string()));
}

#[test]
fn global_variable_compiles_to_named_lookup() {
    let expr = LExEnv::Var {
        name: "f".to_string(),
        global: true,
        env: Env::empty(),
    };
    let expected = CExpr::FunCallOp {
        expr: Box::new(CExpr::LitStr("global_lookup".to_string())),
        args: vec![CExpr::LitStr("f".to_string())],
    };
    assert_eq!(codegen(&expr), expected);
}

#[test]
fn local_variable_compiles_to_slot_lookup() {
    let expr = LExEnv::Var {
        name: "x".to_string(),
        global: false,
        env: Env(vec![("y".to_string(), 3), ("x".to_string(), 4)]),
    };
    let expected = CExpr::FunCallOp {
        expr: Box::new(CExpr::LitStr("local_lookup".to_string())),
        args: vec![CExpr::LitInt(4)],
    };
    assert_eq!(codegen(&expr), expected);
}

#[test]
fn integer_literal_compiles_to_c_literal() {
    let expr = LExEnv::Lit { val: ExprLit::Int(42) };
    assert_eq!(codegen(&expr), CExpr::LitInt(42));
}

#[test]
fn builtin_reference_compiles_to_its_name() {
    let expr = LExEnv::BuiltinIdent {
        name: "object_int_obj_add".to_string(),
        arity: schemec::nodes::LamType::TwoArg,
    };
    assert_eq!(codegen(&expr), CExpr::LitStr("object_int_obj_add".to_string()));
}

#[test]
fn continuation_application_compiles_to_unary_call() {
    let expr = LExEnv::App1 {
        cont: Box::new(LExEnv::LamRef { id: 0 }),
        rand: Box::new(LExEnv::Lit { val: ExprLit::Int(1) }),
        env: Env::empty(),
    };
    let expected = CExpr::FunCallOp {
        expr: Box::new(CExpr::LitStr("lambda_0".to_string())),
        args: vec![CExpr::LitInt(1)],
    };
    assert_eq!(codegen(&expr), expected);
}

#[test]
fn cps_application_compiles_to_binary_call() {
    let expr = LExEnv::App2 {
        rator: Box::new(LExEnv::LamRef { id: 0 }),
        rand: Box::new(LExEnv::Lit { val: ExprLit::Int(2) }),
        cont: Box::new(LExEnv::LamRef { id: 1 }),
        env: Env::empty(),
    };
    let expected = CExpr::FunCallOp {
        expr: Box::new(CExpr::LitStr("lambda_0".to_string())),
        args: vec![CExpr::LitInt(2), CExpr::LitStr("lambda_1".to_string())],
    };
    assert_eq!(codegen(&expr), expected);
}

#[test]
fn lambda_codegen_emits_one_function_per_lambda() {
    // Lift (lambda (x) x) in unary single-body form, then emit.
    let input = LExpr::LamOneOne("x".to_string(), Box::new(LExpr::Var("x".to_string())));
    let (resolved, _ctx) = resolve_env(input);
    let (_main, table) = extract_lambdas(resolved);
    let mut lams: Vec<LExEnv> = Vec::new();
    for (_, lam) in table.0.into_iter() {
        lams.push(lam);
    }
    let decls = lambda_codegen(&lams);
    assert_eq!(decls.len(), 1);
    let expected = CDecl::Fun {
        name: "lambda_0".to_string(),
        typ: CType::Void,
        args: vec![("x".to_string(), obj_ptr())],
        body: vec![CStmt::Expr(CExpr::FunCallOp {
            expr: Box::new(CExpr::LitStr("local_lookup".to_string())),
            args: vec![CExpr::LitInt(0)],
        })],
    };
    assert_eq!(decls[0], expected);
}

#[test]
fn lambda_codegen_gives_cps_lambda_two_parameters() {
    let lam = LExEnv::LamCont {
        arg: "x".to_string(),
        cont: "k".to_string(),
        expr: Box::new(LExEnv::LamRef { id: 3 }),
        env: Env::empty(),
        id: 7,
    };
    let decls = lambda_codegen(&vec![lam]);
    let expected = CDecl::Fun {
        name: "lambda_7".to_string(),
        typ: CType::Void,
        args: vec![("x".to_string(), obj_ptr()), ("k".to_string(), obj_ptr())],
        body: vec![CStmt::Expr(CExpr::LitStr("lambda_3".to_string()))],
    };
    assert_eq!(decls, vec![expected]);
}

#[test]
fn env_table_lists_slot_ids_builtins_first() {
    let builtin_env = Env(vec![("add".to_string(), 0), ("sub".to_string(), 1)]);
    let program_env = Env(vec![("x".to_string(), 2)]);
    let decls = gen_env_ids(&vec![(0, builtin_env)], &vec![(1, program_env)]);
    let expected = vec![
        CDecl::Macro(CExpr::MacroCall {
            name: "ENV_ENTRY".to_string(),
            args: vec![CExpr::LitInt(0), CExpr::LitInt(1)],
        }),
        CDecl::Macro(CExpr::MacroCall {
            name: "ENV_ENTRY".to_string(),
            args: vec![CExpr::LitInt(2)],
        }),
    ];
    assert_eq!(decls, expected);
}
