use schemec::codegen::{extract_lambdas, resolve_env, EnvCtx, LamTable};
use schemec::nodes::{Env, ExprLit, LExEnv, LExpr};
use schemec::transform::{cps_transform, expand_lam_app, expand_lam_body, TransformContext};

fn var(s: &str) -> LExpr {
    LExpr::Var(s.to_string())
}

fn env_of(pairs: &[(&str, usize)]) -> Env {
    let mut v: Vec<(String, usize)> = Vec::new();
    for (name, id) in pairs.iter() {
        v.push((name.to_string(), *id));
    }
    Env(v)
}

#[test]
fn empty_env_binds_nothing() {
    let env = Env::empty();
    assert_eq!(env.get(&"x".to_string()), None);
}

#[test]
fn env_extension_binds_and_parent_is_kept() {
    let parent = Env::new(&Env::empty(), vec![("x".to_string(), 0)]);
    let child = Env::new(&parent, vec![("y".to_string(), 1)]);
    assert_eq!(child.get(&"x".to_string()), Some(0));
    assert_eq!(child.get(&"y".to_string()), Some(1));
    assert_eq!(child.get(&"z".to_string()), None);
    assert_eq!(parent.get(&"y".to_string()), None);
}

#[test]
fn env_extension_shadows_and_keeps_one_binding_per_name() {
    let parent = Env::new(&Env::empty(), vec![("x".to_string(), 0), ("y".to_string(), 1)]);
    let child = Env::new(&parent, vec![("x".to_string(), 7)]);
    assert_eq!(child.get(&"x".to_string()), Some(7));
    assert_eq!(child.get(&"y".to_string()), Some(1));
    assert_eq!(child, env_of(&[("y", 1), ("x", 7)]));
}

#[test]
fn env_equality_is_by_content() {
    let a = Env::new(&Env::empty(), vec![("x".to_string(), 0)]);
    let b = Env::new(&Env::empty(), vec![("x".to_string(), 0)]);
    assert_eq!(a, b);
}

#[test]
fn env_equality_ignores_binding_order() {
    let a = env_of(&[("x", 0), ("y", 1)]);
    let b = env_of(&[("y", 1), ("x", 0)]);
    assert_eq!(a, b);
    let c = env_of(&[("x", 2), ("y", 1)]);
    assert!(a != c);
    let d = env_of(&[("x", 0)]);
    assert!(a != d);
    assert!(d != a);
}

#[test]
fn env_ctx_hands_out_consecutive_indices() {
    let mut ctx = EnvCtx::new();
    assert_eq!(ctx.get_var_index(), 0);
    assert_eq!(ctx.get_var_index(), 1);
    let id0 = ctx.add_lam_map(Env::empty());
    let id1 = ctx.add_lam_map(Env::empty());
    assert_eq!(id0, 0);
    assert_eq!(id1, 1);
    assert_eq!(ctx.get_var_index(), 2);
}

#[test]
fn resolver_marks_unbound_variables_global() {
    let input = LExpr::AppOne(Box::new(var("k")), Box::new(var("x")));
    let (resolved, _ctx) = resolve_env(input);
    let expected = LExEnv::App1 {
        cont: Box::new(LExEnv::Var {
            name: "k".to_string(),
            global: true,
            env: Env::empty(),
        }),
        rand: Box::new(LExEnv::Var {
            name: "x".to_string(),
            global: true,
            env: Env::empty(),
        }),
        env: Env::empty(),
    };
    assert_eq!(resolved, expected);
}

#[test]
fn resolver_annotates_cps_lambda_with_slots_and_id() {
    // (lambda (x) x) after the full normalization pipeline.
    let mut tctx = TransformContext::default();
    let normalized = expand_lam_app(
        LExpr::Lam(vec!["x".to_string()], vec![var("x")]),
        &mut tctx,
    );
    let sequenced = expand_lam_body(normalized, &mut tctx);
    let cps = cps_transform(sequenced, &mut tctx);
    let (resolved, _ctx) = resolve_env(cps);

    let inner_env = env_of(&[("x", 0), ("$anon_var_cont_var_0", 1)]);
    let expected = LExEnv::LamCont {
        arg: "x".to_string(),
        cont: "$anon_var_cont_var_0".to_string(),
        expr: Box::new(LExEnv::App1 {
            cont: Box::new(LExEnv::Var {
                name: "$anon_var_cont_var_0".to_string(),
                global: false,
                env: env_of(&[("x", 0), ("$anon_var_cont_var_0", 1)]),
            }),
            rand: Box::new(LExEnv::Var {
                name: "x".to_string(),
                global: false,
                env: env_of(&[("x", 0), ("$anon_var_cont_var_0", 1)]),
            }),
            env: env_of(&[("x", 0), ("$anon_var_cont_var_0", 1)]),
        }),
        env: inner_env,
        id: 0,
    };
    assert_eq!(resolved, expected);
}

#[test]
fn resolver_shadows_rebound_names_in_nested_lambdas() {
    // (lambda (x) (lambda (x) x)) in unary single-body form.
    let inner = LExpr::LamOneOne("x".to_string(), Box::new(var("x")));
    let outer = LExpr::LamOneOne("x".to_string(), Box::new(inner));
    let (resolved, _ctx) = resolve_env(outer);
    match resolved {
        LExEnv::Lam { env, expr, id, .. } => {
            assert_eq!(id, 0);
            assert_eq!(env.get(&"x".to_string()), Some(0));
            match *expr {
                LExEnv::Lam { env, id, .. } => {
                    assert_eq!(id, 1);
                    assert_eq!(env.get(&"x".to_string()), Some(1));
                }
                other => panic!("expected inner lambda, got {:?}", other),
            }
        }
        other => panic!("expected outer lambda, got {:?}", other),
    }
}

#[test]
fn lifting_replaces_lambda_with_reference() {
    let input = LExpr::LamOneOne("x".to_string(), Box::new(var("x")));
    let (resolved, _ctx) = resolve_env(input);
    let (main, table) = extract_lambdas(resolved);
    assert_eq!(main, LExEnv::LamRef { id: 0 });
    let entry = table.get(0).expect("lambda 0 must be in the table");
    match entry {
        LExEnv::Lam { arg, id, .. } => {
            assert_eq!(arg, "x");
            assert_eq!(*id, 0);
        }
        other => panic!("expected a lambda entry, got {:?}", other),
    }
    assert!(table.get(1).is_none());
}

#[test]
fn lifting_collects_one_entry_per_lambda_with_dense_ids() {
    // (lambda (a) (lambda (b) a)) in unary single-body form: two lambdas.
    let inner = LExpr::LamOneOne("b".to_string(), Box::new(var("a")));
    let outer = LExpr::LamOneOne("a".to_string(), Box::new(inner));
    let (resolved, _ctx) = resolve_env(outer);
    let (main, table) = extract_lambdas(resolved);
    assert_eq!(main, LExEnv::LamRef { id: 0 });
    assert!(table.get(0).is_some());
    assert!(table.get(1).is_some());
    assert!(table.get(2).is_none());
    // The inner lambda's body was lifted too: entry 0 holds a LamRef.
    match table.get(0).unwrap() {
        LExEnv::Lam { expr, .. } => assert_eq!(**expr, LExEnv::LamRef { id: 1 }),
        other => panic!("expected a lambda entry, got {:?}", other),
    }
}

#[test]
fn lambda_table_replaces_on_repeated_id() {
    let mut table = LamTable::new();
    table.insert(0, LExEnv::LamRef { id: 1 });
    table.insert(0, LExEnv::LamRef { id: 2 });
    assert_eq!(table.get(0), Some(&LExEnv::LamRef { id: 2 }));
}

#[test]
fn lifted_literal_survives_in_main_expression() {
    // ((lambda (x) x) 42) shape after CPS would carry the literal; the
    // lifter keeps leaves in place.
    let input = LExpr::AppOne(
        Box::new(LExpr::LamOneOne("x".to_string(), Box::new(var("x")))),
        Box::new(LExpr::Lit(ExprLit::Int(42))),
    );
    let (resolved, _ctx) = resolve_env(input);
    let (main, table) = extract_lambdas(resolved);
    match main {
        LExEnv::App1 { cont, rand, .. } => {
            assert_eq!(*cont, LExEnv::LamRef { id: 0 });
            assert_eq!(*rand, LExEnv::Lit { val: ExprLit::Int(42) });
        }
        other => panic!("expected an application, got {:?}", other),
    }
    assert!(table.get(0).is_some());
    assert!(table.get(1).is_none());
}
