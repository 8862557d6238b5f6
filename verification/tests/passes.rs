use schemec::nodes::{ExprLit, LExpr, LamType};
use schemec::transform::{
    cps_transform, cps_transform_cont, expand_lam_app, expand_lam_body, rename_builtins,
    transform_lits, void_obj, TransformContext,
};

fn var(s: &str) -> LExpr {
    LExpr::Var(s.to_string())
}

fn lit(i: i64) -> LExpr {
    LExpr::Lit(ExprLit::Int(i))
}

fn builtin(s: &str) -> LExpr {
    LExpr::BuiltinIdent(s.to_string(), LamType::TwoArg)
}

#[test]
fn void_obj_is_void_literal() {
    assert_eq!(void_obj(), LExpr::Lit(ExprLit::Void));
}

#[test]
fn builtin_resolver_rewrites_plus_application() {
    let mut ctx = TransformContext::default();
    let input = LExpr::App(Box::new(var("+")), vec![lit(1), lit(2)]);
    let output = rename_builtins(input, &mut ctx);
    let expected = LExpr::App(Box::new(builtin("object_int_obj_add")), vec![lit(1), lit(2)]);
    assert_eq!(output, expected);
}

#[test]
fn builtin_resolver_knows_the_whole_table() {
    let table = [
        ("+", "object_int_obj_add"),
        ("-", "object_int_obj_sub"),
        ("*", "object_int_obj_mul"),
        ("/", "object_int_obj_div"),
        ("to_string", "to_string_func"),
        ("println", "println_func"),
    ];
    for (surface, canonical) in table.iter() {
        let mut ctx = TransformContext::default();
        let output = rename_builtins(var(surface), &mut ctx);
        assert_eq!(output, builtin(canonical));
    }
}

#[test]
fn builtin_resolver_keeps_other_variables() {
    let mut ctx = TransformContext::default();
    let input = LExpr::Lam(vec!["x".to_string()], vec![var("x"), var("plus")]);
    let output = rename_builtins(input, &mut ctx);
    let expected = LExpr::Lam(vec!["x".to_string()], vec![var("x"), var("plus")]);
    assert_eq!(output, expected);
}

#[test]
fn builtin_resolver_is_idempotent_on_example() {
    let make = || LExpr::App(Box::new(var("+")), vec![var("x"), var("println")]);
    let mut ctx = TransformContext::default();
    let once = rename_builtins(make(), &mut ctx);
    let once_again = rename_builtins(make(), &mut ctx);
    let twice = rename_builtins(once_again, &mut ctx);
    assert_eq!(once, twice);
}

#[test]
fn literal_pass_returns_tree_unchanged() {
    let mut ctx = TransformContext::default();
    let input = LExpr::App(Box::new(var("f")), vec![lit(12), LExpr::Lit(ExprLit::Void)]);
    let output = transform_lits(input, &mut ctx);
    let expected = LExpr::App(Box::new(var("f")), vec![lit(12), LExpr::Lit(ExprLit::Void)]);
    assert_eq!(output, expected);
}

#[test]
fn arity_normalizer_curries_parameters() {
    let mut ctx = TransformContext::default();
    let input = LExpr::Lam(
        vec!["a".to_string(), "b".to_string(), "c".to_string()],
        vec![var("x")],
    );
    let output = expand_lam_app(input, &mut ctx);
    let expected = LExpr::LamOne(
        "a".to_string(),
        vec![LExpr::LamOne(
            "b".to_string(),
            vec![LExpr::LamOne("c".to_string(), vec![var("x")])],
        )],
    );
    assert_eq!(output, expected);
}

#[test]
fn arity_normalizer_gives_zero_param_lambda_a_throwaway() {
    let mut ctx = TransformContext::default();
    let input = LExpr::Lam(vec![], vec![lit(1)]);
    let output = expand_lam_app(input, &mut ctx);
    let expected = LExpr::LamOne("$throwaway_var_0".to_string(), vec![lit(1)]);
    assert_eq!(output, expected);
}

#[test]
fn arity_normalizer_chains_applications_left() {
    let mut ctx = TransformContext::default();
    let input = LExpr::App(Box::new(var("f")), vec![var("a"), var("b")]);
    let output = expand_lam_app(input, &mut ctx);
    let expected = LExpr::AppOne(
        Box::new(LExpr::AppOne(Box::new(var("f")), Box::new(var("a")))),
        Box::new(var("b")),
    );
    assert_eq!(output, expected);
}

#[test]
fn arity_normalizer_applies_zero_operand_call_to_void() {
    let mut ctx = TransformContext::default();
    let input = LExpr::App(Box::new(var("f")), vec![]);
    let output = expand_lam_app(input, &mut ctx);
    let expected = LExpr::AppOne(Box::new(var("f")), Box::new(LExpr::Lit(ExprLit::Void)));
    assert_eq!(output, expected);
}

#[test]
fn arity_normalizer_resolves_builtin_addition_shape() {
    // (+ 1 2) after builtin resolution and arity normalization.
    let mut ctx = TransformContext::default();
    let input = LExpr::App(Box::new(var("+")), vec![lit(1), lit(2)]);
    let renamed = rename_builtins(input, &mut ctx);
    let output = expand_lam_app(renamed, &mut ctx);
    let expected = LExpr::AppOne(
        Box::new(LExpr::AppOne(
            Box::new(builtin("object_int_obj_add")),
            Box::new(lit(1)),
        )),
        Box::new(lit(2)),
    );
    assert_eq!(output, expected);
}

#[test]
fn body_sequencer_threads_body_left_to_right() {
    // (lambda () 1 2 3): the body runs 1, then 2, and returns 3.
    let mut ctx = TransformContext::default();
    let input = LExpr::Lam(vec![], vec![lit(1), lit(2), lit(3)]);
    let normalized = expand_lam_app(input, &mut ctx);
    let output = expand_lam_body(normalized, &mut ctx);
    let inner = LExpr::AppOne(
        Box::new(LExpr::LamOneOne(
            "$anon_var_lam_expand_1".to_string(),
            Box::new(lit(3)),
        )),
        Box::new(lit(2)),
    );
    let chain = LExpr::AppOne(
        Box::new(LExpr::LamOneOne(
            "$anon_var_lam_expand_2".to_string(),
            Box::new(inner),
        )),
        Box::new(lit(1)),
    );
    let expected = LExpr::LamOneOne("$throwaway_var_0".to_string(), Box::new(chain));
    assert_eq!(output, expected);
}

#[test]
fn body_sequencer_keeps_single_expression_body() {
    let mut ctx = TransformContext::default();
    let input = LExpr::LamOne("x".to_string(), vec![var("x")]);
    let output = expand_lam_body(input, &mut ctx);
    assert_eq!(output, LExpr::LamOneOne("x".to_string(), Box::new(var("x"))));
}

#[test]
fn body_sequencer_gives_empty_body_the_void_value() {
    let mut ctx = TransformContext::default();
    let input = LExpr::LamOne("x".to_string(), vec![]);
    let output = expand_lam_body(input, &mut ctx);
    assert_eq!(
        output,
        LExpr::LamOneOne("x".to_string(), Box::new(LExpr::Lit(ExprLit::Void)))
    );
}

#[test]
fn cps_gives_lambda_a_continuation_parameter() {
    // (lambda (x) x) after the full normalization pipeline.
    let mut ctx = TransformContext::default();
    let input = LExpr::Lam(vec!["x".to_string()], vec![var("x")]);
    let normalized = expand_lam_app(input, &mut ctx);
    let sequenced = expand_lam_body(normalized, &mut ctx);
    let output = cps_transform(sequenced, &mut ctx);
    let expected = LExpr::LamOneOneCont(
        "x".to_string(),
        "$anon_var_cont_var_0".to_string(),
        Box::new(LExpr::AppOne(
            Box::new(var("$anon_var_cont_var_0")),
            Box::new(var("x")),
        )),
    );
    assert_eq!(output, expected);
}

#[test]
fn cps_hands_atom_to_continuation() {
    let mut ctx = TransformContext::default();
    let output = cps_transform_cont(lit(5), var("k"), &mut ctx);
    assert_eq!(
        output,
        LExpr::AppOne(Box::new(var("k")), Box::new(lit(5)))
    );
}

#[test]
fn cps_application_evaluates_operator_then_operand() {
    // (f a) with outer continuation k.
    let mut ctx = TransformContext::default();
    let input = LExpr::AppOne(Box::new(var("f")), Box::new(var("a")));
    let output = cps_transform_cont(input, var("k"), &mut ctx);
    let call = LExpr::AppOneCont(
        Box::new(var("$anon_var_rator_var_0")),
        Box::new(var("$anon_var_rand_var_1")),
        Box::new(var("k")),
    );
    let rand_binding = LExpr::AppOne(
        Box::new(LExpr::LamOneOne(
            "$anon_var_rand_var_1".to_string(),
            Box::new(call),
        )),
        Box::new(var("a")),
    );
    let expected = LExpr::AppOne(
        Box::new(LExpr::LamOneOne(
            "$anon_var_rator_var_0".to_string(),
            Box::new(rand_binding),
        )),
        Box::new(var("f")),
    );
    assert_eq!(output, expected);
}

#[test]
fn cps_passes_converted_lambda_through_unchanged() {
    let make = || {
        LExpr::LamOneOneCont(
            "x".to_string(),
            "k".to_string(),
            Box::new(LExpr::AppOne(Box::new(var("k")), Box::new(var("x")))),
        )
    };
    let mut ctx = TransformContext::default();
    assert_eq!(cps_transform(make(), &mut ctx), make());
    let handed = cps_transform_cont(make(), var("j"), &mut ctx);
    assert_eq!(handed, LExpr::AppOne(Box::new(var("j")), Box::new(make())));
}

#[test]
fn fresh_names_follow_the_three_styles() {
    let mut ctx = TransformContext::default();
    assert_eq!(ctx.gen_ident("hint"), "$anon_var_hint_0".to_string());
    assert_eq!(ctx.gen_cont(), var("$cont_var_1"));
    assert_eq!(ctx.gen_throwaway(), "$throwaway_var_2".to_string());
    assert_eq!(ctx.gen_throwaway_var(), var("$throwaway_var_3"));
    assert_eq!(ctx.gen_var("v"), var("$anon_var_v_4"));
}

#[test]
fn pipeline_is_deterministic_across_runs() {
    let make = || {
        LExpr::App(
            Box::new(LExpr::Lam(vec![], vec![var("+"), lit(1), lit(2)])),
            vec![lit(9)],
        )
    };
    let run = |input: LExpr| {
        let mut ctx = TransformContext::default();
        let renamed = rename_builtins(input, &mut ctx);
        let lits = transform_lits(renamed, &mut ctx);
        let normalized = expand_lam_app(lits, &mut ctx);
        let sequenced = expand_lam_body(normalized, &mut ctx);
        cps_transform_cont(sequenced, var("k"), &mut ctx)
    };
    assert_eq!(run(make()), run(make()));
}
