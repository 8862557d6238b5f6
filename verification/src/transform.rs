//! The normalization passes over the surface IR: builtin resolution, the
//! literal-constructor rewriter, arity normalization (currying), body
//! sequencing, and CPS conversion, together with the fresh-name context
//! they share.

use vstd::prelude::*;
use vstd::string::StringExecFns;

use crate::nodes::{
    all_arity_normal, all_surface, expr_size, is_arity_normal, is_cps_body, is_cps_cont,
    is_cps_input, is_cps_value, is_seq_normal, is_surface, lemma_all_arity_normal,
    lemma_seq_normal_is_cps_input, lemma_seq_size_drop_last,
    lemma_view_exprs, lemma_view_exprs_decompose, seq_size, view_exprs, view_names, ExprLit,
    LExpr, LExprView, LamType,
};
use crate::numerals::{dec_digits, u64_to_string};

verus! {

// ---------------------------------------------------------------------------
// Fresh names
// ---------------------------------------------------------------------------

/// The name generated by `gen_ident(hint)` at counter value `n`.
pub open spec fn anon_ident(hint: Seq<char>, n: nat) -> Seq<char> {
    "$anon_var_"@ + hint + "_"@ + dec_digits(n)
}

/// The name generated by `gen_cont` at counter value `n`.
pub open spec fn cont_ident(n: nat) -> Seq<char> {
    "$cont_var_"@ + dec_digits(n)
}

/// The name generated by `gen_throwaway` at counter value `n`.
pub open spec fn throwaway_ident(n: nat) -> Seq<char> {
    "$throwaway_var_"@ + dec_digits(n)
}

/// The fresh-name context: a monotonically increasing counter shared by
/// the whole pipeline, so generated names never collide across passes.
pub struct TransformContext {
    genvar_count: u64,
}

impl TransformContext {
    /// The current counter value.
    pub closed spec fn count(&self) -> nat {
        self.genvar_count as nat
    }

    /// A generated identifier carrying `name` as a hint.
    pub fn gen_ident(&mut self, name: &str) -> (r: String)
        requires
            old(self).count() < u64::MAX,
        ensures
            r@ == anon_ident(name@, old(self).count()),
            final(self).count() == old(self).count() + 1,
    {
        let mut var = String::from_str("$anon_var_");
        var.append(name);
        var.append("_");
        let num = u64_to_string(self.genvar_count);
        var.append(num.as_str());
        self.genvar_count = self.genvar_count + 1;
        var
    }

    /// A variable node named by `gen_ident`.
    pub fn gen_var(&mut self, name: &str) -> (r: LExpr)
        requires
            old(self).count() < u64::MAX,
        ensures
            r@ == LExprView::Var(anon_ident(name@, old(self).count())),
            final(self).count() == old(self).count() + 1,
    {
        LExpr::Var(self.gen_ident(name))
    }

    /// A variable node holding a fresh continuation name.
    pub fn gen_cont(&mut self) -> (r: LExpr)
        requires
            old(self).count() < u64::MAX,
        ensures
            r@ == LExprView::Var(cont_ident(old(self).count())),
            final(self).count() == old(self).count() + 1,
    {
        let mut var = String::from_str("$cont_var_");
        let num = u64_to_string(self.genvar_count);
        var.append(num.as_str());
        self.genvar_count = self.genvar_count + 1;
        LExpr::Var(var)
    }

    /// A fresh name for an unused binding position.
    pub fn gen_throwaway(&mut self) -> (r: String)
        requires
            old(self).count() < u64::MAX,
        ensures
            r@ == throwaway_ident(old(self).count()),
            final(self).count() == old(self).count() + 1,
    {
        let mut var = String::from_str("$throwaway_var_");
        let num = u64_to_string(self.genvar_count);
        var.append(num.as_str());
        self.genvar_count = self.genvar_count + 1;
        var
    }

    /// A variable node named by `gen_throwaway`.
    pub fn gen_throwaway_var(&mut self) -> (r: LExpr)
        requires
            old(self).count() < u64::MAX,
        ensures
            r@ == LExprView::Var(throwaway_ident(old(self).count())),
            final(self).count() == old(self).count() + 1,
    {
        LExpr::Var(self.gen_throwaway())
    }
}

impl Default for TransformContext {
    /// A context whose counter starts at zero.
    fn default() -> (r: TransformContext)
        ensures
            r.count() == 0,
    {
        TransformContext { genvar_count: 0 }
    }
}

/// The void literal object.
pub fn void_obj() -> (r: LExpr)
    ensures
        r@ == LExprView::Lit(ExprLit::Void),
{
    LExpr::Lit(ExprLit::Void)
}

// ---------------------------------------------------------------------------
// Builtin resolution
// ---------------------------------------------------------------------------

/// The fixed builtin table: the canonical runtime name for a surface
/// identifier, if it denotes a builtin.
pub open spec fn builtin_rename(name: Seq<char>) -> Option<Seq<char>> {
    if name == "to_string"@ {
        Some("to_string_func"@)
    } else if name == "println"@ {
        Some("println_func"@)
    } else if name == "+"@ {
        Some("object_int_obj_add"@)
    } else if name == "-"@ {
        Some("object_int_obj_sub"@)
    } else if name == "*"@ {
        Some("object_int_obj_mul"@)
    } else if name == "/"@ {
        Some("object_int_obj_div"@)
    } else {
        None
    }
}

/// What `rename_builtins` produces: every `Var` whose name stands in the
/// builtin table becomes a two-argument `BuiltinIdent`; everything else is
/// kept, with lambda bodies and application children rewritten recursively.
pub open spec fn spec_rename_builtins(e: LExprView) -> LExprView
    decreases e,
{
    match e {
        LExprView::Lam(args, body) => LExprView::Lam(args, spec_rename_builtins_seq(body)),
        LExprView::App(f, operands) => LExprView::App(
            Box::new(spec_rename_builtins(*f)),
            spec_rename_builtins_seq(operands),
        ),
        LExprView::Var(name) => match builtin_rename(name) {
            Some(canonical) => LExprView::BuiltinIdent(canonical, LamType::TwoArg),
            None => LExprView::Var(name),
        },
        _ => e,
    }
}

/// `spec_rename_builtins` mapped over a sequence.
pub open spec fn spec_rename_builtins_seq(es: Seq<LExprView>) -> Seq<LExprView>
    decreases es,
{
    if es.len() == 0 {
        Seq::empty()
    } else {
        seq![spec_rename_builtins(es[0])] + spec_rename_builtins_seq(
            es.subrange(1, es.len() as int),
        )
    }
}

/// Looks `name` up in the builtin table.
fn builtin_table_lookup(name: &String) -> (r: Option<String>)
    ensures
        match r {
            Some(canonical) => builtin_rename(name@) == Some(canonical@),
            None => builtin_rename(name@).is_none(),
        },
{
    if *name == String::from_str("to_string") {
        Some(String::from_str("to_string_func"))
    } else if *name == String::from_str("println") {
        Some(String::from_str("println_func"))
    } else if *name == String::from_str("+") {
        Some(String::from_str("object_int_obj_add"))
    } else if *name == String::from_str("-") {
        Some(String::from_str("object_int_obj_sub"))
    } else if *name == String::from_str("*") {
        Some(String::from_str("object_int_obj_mul"))
    } else if *name == String::from_str("/") {
        Some(String::from_str("object_int_obj_div"))
    } else {
        None
    }
}

/// Rewrites identifiers bound in the fixed builtin table into tagged
/// builtin references; all other nodes pass through structurally.
pub fn rename_builtins(expr: LExpr, ctx: &mut TransformContext) -> (r: LExpr)
    requires
        is_surface(expr@),
    ensures
        r@ == spec_rename_builtins(expr@),
        *final(ctx) == *old(ctx),
    decreases expr,
{
    match expr {
        LExpr::Lam(args, body) => {
            proof {
                assert(is_surface(LExprView::Lam(view_names(args@), view_exprs(body@))));
            }
            LExpr::Lam(args, rename_builtins_seq(body, ctx))
        },
        LExpr::App(operator, operands) => {
            let op = rename_builtins(*operator, ctx);
            LExpr::App(Box::new(op), rename_builtins_seq(operands, ctx))
        },
        LExpr::Var(name) => match builtin_table_lookup(&name) {
            Some(canonical) => LExpr::BuiltinIdent(canonical, LamType::TwoArg),
            None => LExpr::Var(name),
        },
        LExpr::Lit(l) => LExpr::Lit(l),
        LExpr::BuiltinIdent(name, arity) => LExpr::BuiltinIdent(name, arity),
        _ => unreached(),
    }
}

/// `rename_builtins` mapped over the expressions of a `Vec`, in order.
fn rename_builtins_seq(body: Vec<LExpr>, ctx: &mut TransformContext) -> (r: Vec<LExpr>)
    requires
        all_surface(view_exprs(body@)),
    ensures
        view_exprs(r@) == spec_rename_builtins_seq(view_exprs(body@)),
        *final(ctx) == *old(ctx),
    decreases body@,
{
    let mut body = body;
    let ghost orig = body@;
    if body.len() == 0 {
        let r: Vec<LExpr> = Vec::new();
        proof {
            assert(view_exprs(r@) =~= spec_rename_builtins_seq(view_exprs(orig)));
        }
        r
    } else {
        let first = body.remove(0);
        proof {
            assert(body@ =~= orig.subrange(1, orig.len() as int));
            assert(first == orig[0]);
            lemma_view_exprs_decompose(orig);
        }
        let first_r = rename_builtins(first, ctx);
        let rest_r = rename_builtins_seq(body, ctx);
        let mut out = rest_r;
        let ghost rest_view = out@;
        out.insert(0, first_r);
        proof {
            assert(out@.subrange(1, out@.len() as int) =~= rest_view);
            lemma_view_exprs_decompose(out@);
            assert(view_exprs(out@) == seq![first_r@] + view_exprs(rest_view));
            assert(view_exprs(out@) == spec_rename_builtins_seq(view_exprs(orig)));
        }
        out
    }
}

/// A builtin-resolved tree is still surface IR.
pub proof fn lemma_rename_builtins_surface(e: LExprView)
    requires
        is_surface(e),
    ensures
        is_surface(spec_rename_builtins(e)),
    decreases e,
{
    match e {
        LExprView::Lam(args, body) => lemma_rename_builtins_surface_seq(body),
        LExprView::App(f, operands) => {
            lemma_rename_builtins_surface(*f);
            lemma_rename_builtins_surface_seq(operands);
        },
        _ => {},
    }
}

/// `lemma_rename_builtins_surface` over a sequence.
pub proof fn lemma_rename_builtins_surface_seq(es: Seq<LExprView>)
    requires
        all_surface(es),
    ensures
        all_surface(spec_rename_builtins_seq(es)),
    decreases es,
{
    if es.len() > 0 {
        lemma_rename_builtins_surface(es[0]);
        lemma_rename_builtins_surface_seq(es.subrange(1, es.len() as int));
        assert(spec_rename_builtins_seq(es)[0] == spec_rename_builtins(es[0]));
        assert(spec_rename_builtins_seq(es).subrange(
            1,
            spec_rename_builtins_seq(es).len() as int,
        ) =~= spec_rename_builtins_seq(es.subrange(1, es.len() as int)));
    }
}

/// Re-running the builtin resolver on its own output changes nothing.
pub proof fn lemma_rename_builtins_idempotent(e: LExprView)
    requires
        is_surface(e),
    ensures
        spec_rename_builtins(spec_rename_builtins(e)) == spec_rename_builtins(e),
    decreases e,
{
    match e {
        LExprView::Lam(args, body) => lemma_rename_builtins_idempotent_seq(body),
        LExprView::App(f, operands) => {
            lemma_rename_builtins_idempotent(*f);
            lemma_rename_builtins_idempotent_seq(operands);
        },
        _ => {},
    }
}

/// `lemma_rename_builtins_idempotent` over a sequence.
pub proof fn lemma_rename_builtins_idempotent_seq(es: Seq<LExprView>)
    requires
        all_surface(es),
    ensures
        spec_rename_builtins_seq(spec_rename_builtins_seq(es)) == spec_rename_builtins_seq(es),
    decreases es,
{
    if es.len() > 0 {
        lemma_rename_builtins_idempotent(es[0]);
        lemma_rename_builtins_idempotent_seq(es.subrange(1, es.len() as int));
        let rs = spec_rename_builtins_seq(es);
        assert(rs[0] == spec_rename_builtins(es[0]));
        assert(rs.subrange(1, rs.len() as int) =~= spec_rename_builtins_seq(
            es.subrange(1, es.len() as int),
        ));
    }
}

// ---------------------------------------------------------------------------
// Arity normalization (currying)
// ---------------------------------------------------------------------------

/// Nested unary lambdas around `acc`, innermost parameter last: the shape
/// `Lam([p1 .. pk], body)` curries into.
pub open spec fn curry_params(ps: Seq<Seq<char>>, acc: LExprView) -> LExprView
    decreases ps.len(),
{
    if ps.len() == 0 {
        acc
    } else {
        curry_params(
            ps.subrange(0, ps.len() - 1),
            LExprView::LamOne(ps[ps.len() - 1], seq![acc]),
        )
    }
}

/// Left-associated unary applications of `acc` to `ops`, in order.
pub open spec fn app_chain(acc: LExprView, ops: Seq<LExprView>) -> LExprView
    decreases ops.len(),
{
    if ops.len() == 0 {
        acc
    } else {
        app_chain(
            LExprView::AppOne(Box::new(acc), Box::new(ops[0])),
            ops.subrange(1, ops.len() as int),
        )
    }
}

/// What `expand_lam_app` produces, together with the counter it leaves
/// behind: n-ary lambdas become nested `LamOne` (a zero-parameter lambda
/// gets a fresh throwaway parameter), n-ary applications become
/// left-associated `AppOne` chains (a zero-operand application is applied
/// to the void literal); children are normalized first, operator before
/// operands.
pub open spec fn spec_expand_lam_app(e: LExprView, n: nat) -> (LExprView, nat)
    decreases e,
{
    match e {
        LExprView::Lam(args, body) => {
            let (bodyv, n1) = spec_expand_lam_app_seq(body, n);
            if args.len() == 0 {
                (LExprView::LamOne(throwaway_ident(n1), bodyv), n1 + 1)
            } else {
                (
                    curry_params(
                        args.subrange(0, args.len() - 1),
                        LExprView::LamOne(args[args.len() - 1], bodyv),
                    ),
                    n1,
                )
            }
        },
        LExprView::App(f, operands) => {
            let (fv, n1) = spec_expand_lam_app(*f, n);
            let (opsv, n2) = spec_expand_lam_app_seq(operands, n1);
            if opsv.len() == 0 {
                (LExprView::AppOne(Box::new(fv), Box::new(LExprView::Lit(ExprLit::Void))), n2)
            } else {
                (
                    app_chain(
                        LExprView::AppOne(Box::new(fv), Box::new(opsv[0])),
                        opsv.subrange(1, opsv.len() as int),
                    ),
                    n2,
                )
            }
        },
        _ => (e, n),
    }
}

/// `spec_expand_lam_app` mapped over a sequence, threading the counter.
pub open spec fn spec_expand_lam_app_seq(es: Seq<LExprView>, n: nat) -> (Seq<LExprView>, nat)
    decreases es,
{
    if es.len() == 0 {
        (Seq::empty(), n)
    } else {
        let (e0, n1) = spec_expand_lam_app(es[0], n);
        let (rest, n2) = spec_expand_lam_app_seq(es.subrange(1, es.len() as int), n1);
        (seq![e0] + rest, n2)
    }
}

/// The arity normalizer advances the counter by at most the tree size.
pub proof fn lemma_expand_lam_app_count(e: LExprView, n: nat)
    ensures
        n <= spec_expand_lam_app(e, n).1 <= n + expr_size(e),
    decreases e,
{
    match e {
        LExprView::Lam(args, body) => lemma_expand_lam_app_count_seq(body, n),
        LExprView::App(f, operands) => {
            lemma_expand_lam_app_count(*f, n);
            lemma_expand_lam_app_count_seq(operands, spec_expand_lam_app(*f, n).1);
        },
        _ => {},
    }
}

/// `lemma_expand_lam_app_count` over a sequence.
pub proof fn lemma_expand_lam_app_count_seq(es: Seq<LExprView>, n: nat)
    ensures
        n <= spec_expand_lam_app_seq(es, n).1 <= n + seq_size(es),
    decreases es,
{
    if es.len() > 0 {
        lemma_expand_lam_app_count(es[0], n);
        lemma_expand_lam_app_count_seq(
            es.subrange(1, es.len() as int),
            spec_expand_lam_app(es[0], n).1,
        );
    }
}

/// Curries n-ary lambdas into nested unary lambdas and n-ary applications
/// into left-associated unary applications.
pub fn expand_lam_app(expr: LExpr, ctx: &mut TransformContext) -> (r: LExpr)
    requires
        is_surface(expr@),
        old(ctx).count() + expr_size(expr@) <= u64::MAX,
    ensures
        (r@, final(ctx).count()) == spec_expand_lam_app(expr@, old(ctx).count()),
    decreases expr,
{
    match expr {
        LExpr::Lam(args, body) => {
            let ghost bodyvs = view_exprs(body@);
            let ghost bodyspec = spec_expand_lam_app_seq(bodyvs, old(ctx).count());
            proof {
                lemma_expand_lam_app_count_seq(bodyvs, old(ctx).count());
            }
            let bodyv = expand_lam_app_seq(body, ctx);
            if args.len() == 0 {
                let t = ctx.gen_throwaway();
                LExpr::LamOne(t, bodyv)
            } else {
                let mut args = args;
                let ghost argsv = view_names(args@);
                let ghost target = curry_params(
                    argsv.subrange(0, argsv.len() - 1),
                    LExprView::LamOne(argsv[argsv.len() - 1], bodyspec.0),
                );
                let last = match args.pop() {
                    Some(p) => p,
                    None => unreached(),
                };
                proof {
                    assert(view_names(args@) =~= argsv.subrange(0, argsv.len() - 1));
                    assert(last@ == argsv[argsv.len() - 1]);
                }
                let mut acc = LExpr::LamOne(last, bodyv);
                while args.len() > 0
                    invariant
                        curry_params(view_names(args@), acc@) == target,
                    decreases args.len(),
                {
                    let ghost argsv_pre = view_names(args@);
                    let p = match args.pop() {
                        Some(p) => p,
                        None => unreached(),
                    };
                    proof {
                        assert(view_names(args@) =~= argsv_pre.subrange(0, argsv_pre.len() - 1));
                        assert(p@ == argsv_pre[argsv_pre.len() - 1]);
                    }
                    let ghost acc_pre = acc@;
                    let inner = vec![acc];
                    proof {
                        lemma_view_exprs_decompose(inner@);
                        assert(view_exprs(inner@) =~= seq![acc_pre]);
                    }
                    acc = LExpr::LamOne(p, inner);
                }
                proof {
                    assert(view_names(args@).len() == 0);
                    assert(curry_params(view_names(args@), acc@) == acc@);
                }
                acc
            }
        },
        LExpr::App(operator, operands) => {
            proof {
                lemma_expand_lam_app_count((*operator)@, old(ctx).count());
            }
            let op = expand_lam_app(*operator, ctx);
            let opsv = expand_lam_app_seq(operands, ctx);
            if opsv.len() == 0 {
                proof {
                    assert(view_exprs(opsv@).len() == 0);
                }
                LExpr::AppOne(Box::new(op), Box::new(void_obj()))
            } else {
                let mut rest = opsv;
                let ghost opsvv = view_exprs(rest@);
                proof {
                    lemma_view_exprs_decompose(rest@);
                }
                let first = rest.remove(0);
                proof {
                    assert(view_exprs(rest@) =~= opsvv.subrange(1, opsvv.len() as int));
                    assert(first@ == opsvv[0]);
                }
                let ghost target = app_chain(
                    LExprView::AppOne(Box::new(op@), Box::new(opsvv[0])),
                    opsvv.subrange(1, opsvv.len() as int),
                );
                let mut acc = LExpr::AppOne(Box::new(op), Box::new(first));
                while rest.len() > 0
                    invariant
                        app_chain(acc@, view_exprs(rest@)) == target,
                    decreases rest.len(),
                {
                    let ghost restv_pre = view_exprs(rest@);
                    proof {
                        lemma_view_exprs_decompose(rest@);
                    }
                    let a = rest.remove(0);
                    proof {
                        assert(view_exprs(rest@) =~= restv_pre.subrange(1, restv_pre.len() as int));
                        assert(a@ == restv_pre[0]);
                    }
                    acc = LExpr::AppOne(Box::new(acc), Box::new(a));
                }
                proof {
                    assert(view_exprs(rest@).len() == 0);
                    assert(app_chain(acc@, view_exprs(rest@)) == acc@);
                }
                acc
            }
        },
        LExpr::Var(name) => LExpr::Var(name),
        LExpr::Lit(l) => LExpr::Lit(l),
        LExpr::BuiltinIdent(name, arity) => LExpr::BuiltinIdent(name, arity),
        _ => unreached(),
    }
}

/// `expand_lam_app` mapped over the expressions of a `Vec`, in order.
fn expand_lam_app_seq(body: Vec<LExpr>, ctx: &mut TransformContext) -> (r: Vec<LExpr>)
    requires
        all_surface(view_exprs(body@)),
        old(ctx).count() + seq_size(view_exprs(body@)) <= u64::MAX,
    ensures
        (view_exprs(r@), final(ctx).count()) == spec_expand_lam_app_seq(
            view_exprs(body@),
            old(ctx).count(),
        ),
    decreases body@,
{
    let mut body = body;
    let ghost orig = body@;
    if body.len() == 0 {
        let r: Vec<LExpr> = Vec::new();
        proof {
            assert(view_exprs(r@) =~= Seq::<LExprView>::empty());
            assert(view_exprs(orig).len() == 0);
        }
        r
    } else {
        proof {
            lemma_view_exprs_decompose(orig);
        }
        let first = body.remove(0);
        proof {
            assert(body@ =~= orig.subrange(1, orig.len() as int));
            assert(first == orig[0]);
            lemma_expand_lam_app_count(orig[0]@, old(ctx).count());
        }
        let first_r = expand_lam_app(first, ctx);
        let rest_r = expand_lam_app_seq(body, ctx);
        let mut out = rest_r;
        let ghost rest_view = out@;
        out.insert(0, first_r);
        proof {
            assert(out@.subrange(1, out@.len() as int) =~= rest_view);
            lemma_view_exprs_decompose(out@);
            assert(view_exprs(out@) == seq![first_r@] + view_exprs(rest_view));
            assert((view_exprs(out@), final(ctx).count()) == spec_expand_lam_app_seq(
                view_exprs(orig),
                old(ctx).count(),
            ));
        }
        out
    }
}

/// Nested `LamOne` wrappers keep arity-normality.
pub proof fn lemma_curry_params_arity_normal(ps: Seq<Seq<char>>, acc: LExprView)
    requires
        is_arity_normal(acc),
    ensures
        is_arity_normal(curry_params(ps, acc)),
    decreases ps.len(),
{
    if ps.len() > 0 {
        let wrapped = LExprView::LamOne(ps[ps.len() - 1], seq![acc]);
        assert(all_arity_normal(seq![acc]) == (is_arity_normal(acc) && all_arity_normal(
            seq![acc].subrange(1, 1),
        )));
        assert(seq![acc].subrange(1, 1) =~= Seq::<LExprView>::empty());
        lemma_curry_params_arity_normal(ps.subrange(0, ps.len() - 1), wrapped);
    }
}

/// Left-associated `AppOne` chains keep arity-normality.
pub proof fn lemma_app_chain_arity_normal(acc: LExprView, ops: Seq<LExprView>)
    requires
        is_arity_normal(acc),
        all_arity_normal(ops),
    ensures
        is_arity_normal(app_chain(acc, ops)),
    decreases ops.len(),
{
    if ops.len() > 0 {
        lemma_app_chain_arity_normal(
            LExprView::AppOne(Box::new(acc), Box::new(ops[0])),
            ops.subrange(1, ops.len() as int),
        );
    }
}

/// After the arity normalizer no `Lam` or `App` remains: only `LamOne`,
/// `AppOne` and leaves.
pub proof fn lemma_expand_lam_app_arity_normal(e: LExprView, n: nat)
    requires
        is_surface(e),
    ensures
        is_arity_normal(spec_expand_lam_app(e, n).0),
    decreases e,
{
    match e {
        LExprView::Lam(args, body) => {
            lemma_expand_lam_app_arity_normal_seq(body, n);
            let bodyv = spec_expand_lam_app_seq(body, n).0;
            let n1 = spec_expand_lam_app_seq(body, n).1;
            if args.len() == 0 {
                assert(spec_expand_lam_app(e, n).0 == LExprView::LamOne(
                    throwaway_ident(n1),
                    bodyv,
                ));
                assert(is_arity_normal(LExprView::LamOne(throwaway_ident(n1), bodyv)));
                assert(is_arity_normal(spec_expand_lam_app(e, n).0));
            } else {
                lemma_curry_params_arity_normal(
                    args.subrange(0, args.len() - 1),
                    LExprView::LamOne(args[args.len() - 1], bodyv),
                );
                assert(spec_expand_lam_app(e, n).0 == curry_params(
                    args.subrange(0, args.len() - 1),
                    LExprView::LamOne(args[args.len() - 1], bodyv),
                ));
                assert(is_arity_normal(spec_expand_lam_app(e, n).0));
            }
        },
        LExprView::App(f, operands) => {
            lemma_expand_lam_app_arity_normal(*f, n);
            let (fv, n1) = spec_expand_lam_app(*f, n);
            lemma_expand_lam_app_arity_normal_seq(operands, n1);
            let (opsv, n2) = spec_expand_lam_app_seq(operands, n1);
            if opsv.len() == 0 {
                assert(is_arity_normal(LExprView::Lit(ExprLit::Void)));
                assert(is_arity_normal(spec_expand_lam_app(e, n).0));
            } else {
                assert(is_arity_normal(opsv[0]) && all_arity_normal(
                    opsv.subrange(1, opsv.len() as int),
                ));
                lemma_app_chain_arity_normal(
                    LExprView::AppOne(Box::new(fv), Box::new(opsv[0])),
                    opsv.subrange(1, opsv.len() as int),
                );
            }
        },
        _ => {},
    }
}

/// `lemma_expand_lam_app_arity_normal` over a sequence.
pub proof fn lemma_expand_lam_app_arity_normal_seq(es: Seq<LExprView>, n: nat)
    requires
        all_surface(es),
    ensures
        all_arity_normal(spec_expand_lam_app_seq(es, n).0),
    decreases es,
{
    if es.len() > 0 {
        lemma_expand_lam_app_arity_normal(es[0], n);
        let (e0, n1) = spec_expand_lam_app(es[0], n);
        lemma_expand_lam_app_arity_normal_seq(es.subrange(1, es.len() as int), n1);
        let (rest, n2) = spec_expand_lam_app_seq(es.subrange(1, es.len() as int), n1);
        let combined = seq![e0] + rest;
        assert(combined[0] == e0);
        assert(combined.subrange(1, combined.len() as int) =~= rest);
    }
}

// ---------------------------------------------------------------------------
// Literal-constructor rewriting (reserved pass)
// ---------------------------------------------------------------------------

/// Walks the surface tree rebuilding it node by node. Reserved for wrapping
/// literals in constructor calls; at present it returns the tree unchanged.
pub fn transform_lits(expr: LExpr, ctx: &mut TransformContext) -> (r: LExpr)
    requires
        is_surface(expr@),
    ensures
        r@ == expr@,
        *final(ctx) == *old(ctx),
    decreases expr,
{
    match expr {
        LExpr::Lam(args, body) => LExpr::Lam(args, transform_lits_seq(body, ctx)),
        LExpr::App(operator, operands) => {
            let op = transform_lits(*operator, ctx);
            LExpr::App(Box::new(op), transform_lits_seq(operands, ctx))
        },
        LExpr::Var(name) => LExpr::Var(name),
        LExpr::Lit(l) => LExpr::Lit(l),
        LExpr::BuiltinIdent(name, arity) => LExpr::BuiltinIdent(name, arity),
        _ => unreached(),
    }
}

/// `transform_lits` mapped over the expressions of a `Vec`, in order.
fn transform_lits_seq(body: Vec<LExpr>, ctx: &mut TransformContext) -> (r: Vec<LExpr>)
    requires
        all_surface(view_exprs(body@)),
    ensures
        view_exprs(r@) == view_exprs(body@),
        *final(ctx) == *old(ctx),
    decreases body@,
{
    let mut body = body;
    let ghost orig = body@;
    if body.len() == 0 {
        let r: Vec<LExpr> = Vec::new();
        proof {
            assert(view_exprs(r@) =~= view_exprs(orig));
        }
        r
    } else {
        let first = body.remove(0);
        proof {
            assert(body@ =~= orig.subrange(1, orig.len() as int));
            assert(first == orig[0]);
            lemma_view_exprs_decompose(orig);
        }
        let first_r = transform_lits(first, ctx);
        let rest_r = transform_lits_seq(body, ctx);
        let mut out = rest_r;
        let ghost rest_view = out@;
        out.insert(0, first_r);
        proof {
            assert(out@.subrange(1, out@.len() as int) =~= rest_view);
            lemma_view_exprs_decompose(out@);
            assert(view_exprs(out@) == seq![first_r@] + view_exprs(rest_view));
            assert(view_exprs(out@) == view_exprs(orig));
        }
        out
    }
}

// ---------------------------------------------------------------------------
// Body sequencing
// ---------------------------------------------------------------------------

/// The left-to-right sequencing chain. `acc` holds the code built so far
/// (outermost value last); each further expression `rs[i]` — an *earlier*
/// body expression — is evaluated first and its value discarded through a
/// fresh single-use binding.
pub open spec fn seq_chain(rs: Seq<LExprView>, acc: LExprView, n: nat) -> (LExprView, nat)
    decreases rs.len(),
{
    if rs.len() == 0 {
        (acc, n)
    } else {
        seq_chain(
            rs.subrange(1, rs.len() as int),
            LExprView::AppOne(
                Box::new(LExprView::LamOneOne(anon_ident("lam_expand"@, n), Box::new(acc))),
                Box::new(rs[0]),
            ),
            n + 1,
        )
    }
}

/// What `expand_lam_body` produces, with the counter it leaves behind:
/// every `LamOne` body collapses to a single expression that evaluates the
/// body left to right and returns the last expression's value; an empty
/// body becomes the void literal. `AppOne` children are rewritten
/// recursively; leaves pass through.
pub open spec fn spec_expand_lam_body(e: LExprView, n: nat) -> (LExprView, nat)
    decreases e, 1int,
{
    match e {
        LExprView::LamOne(arg, body) => {
            let (rev, n1) = spec_expand_lam_body_rev(body, n);
            if body.len() == 0 {
                (LExprView::LamOneOne(arg, Box::new(LExprView::Lit(ExprLit::Void))), n1)
            } else {
                let (chain, n2) = seq_chain(rev.subrange(1, rev.len() as int), rev[0], n1);
                (LExprView::LamOneOne(arg, Box::new(chain)), n2)
            }
        },
        LExprView::AppOne(f, a) => {
            let (fv, n1) = spec_expand_lam_body(*f, n);
            let (av, n2) = spec_expand_lam_body(*a, n1);
            (LExprView::AppOne(Box::new(fv), Box::new(av)), n2)
        },
        _ => (e, n),
    }
}

/// `spec_expand_lam_body` mapped over a body in *reverse* order (the last
/// expression is processed — and numbered — first), returning the results
/// last-first.
pub open spec fn spec_expand_lam_body_rev(es: Seq<LExprView>, n: nat) -> (Seq<LExprView>, nat)
    decreases es, 0int,
{
    if es.len() == 0 {
        (Seq::empty(), n)
    } else {
        let (last, n1) = spec_expand_lam_body(es[es.len() - 1], n);
        let (rest, n2) = spec_expand_lam_body_rev(es.subrange(0, es.len() - 1), n1);
        (seq![last] + rest, n2)
    }
}

/// The sequencing chain draws one fresh name per chained expression.
pub proof fn lemma_seq_chain_count(rs: Seq<LExprView>, acc: LExprView, n: nat)
    ensures
        seq_chain(rs, acc, n).1 == n + rs.len(),
    decreases rs.len(),
{
    if rs.len() > 0 {
        lemma_seq_chain_count(
            rs.subrange(1, rs.len() as int),
            LExprView::AppOne(
                Box::new(LExprView::LamOneOne(anon_ident("lam_expand"@, n), Box::new(acc))),
                Box::new(rs[0]),
            ),
            n + 1,
        );
    }
}

/// The body sequencer advances the counter by less than the tree size.
pub proof fn lemma_expand_lam_body_count(e: LExprView, n: nat)
    ensures
        n <= spec_expand_lam_body(e, n).1,
        spec_expand_lam_body(e, n).1 + 1 <= n + expr_size(e),
    decreases e, 1int,
{
    match e {
        LExprView::LamOne(arg, body) => {
            lemma_expand_lam_body_rev_count(body, n);
            let rev = spec_expand_lam_body_rev(body, n).0;
            let n1 = spec_expand_lam_body_rev(body, n).1;
            if body.len() > 0 {
                assert(rev.len() == body.len());
                lemma_seq_chain_count(rev.subrange(1, rev.len() as int), rev[0], n1);
            }
        },
        LExprView::AppOne(f, a) => {
            lemma_expand_lam_body_count(*f, n);
            lemma_expand_lam_body_count(*a, spec_expand_lam_body(*f, n).1);
        },
        _ => {},
    }
}

/// `lemma_expand_lam_body_count` over a reversed body.
pub proof fn lemma_expand_lam_body_rev_count(es: Seq<LExprView>, n: nat)
    ensures
        n <= spec_expand_lam_body_rev(es, n).1,
        spec_expand_lam_body_rev(es, n).1 + es.len() <= n + seq_size(es),
        spec_expand_lam_body_rev(es, n).0.len() == es.len(),
    decreases es, 0int,
{
    if es.len() > 0 {
        lemma_seq_size_drop_last(es);
        lemma_expand_lam_body_count(es[es.len() - 1], n);
        lemma_expand_lam_body_rev_count(
            es.subrange(0, es.len() - 1),
            spec_expand_lam_body(es[es.len() - 1], n).1,
        );
    }
}

/// Collapses every multi-expression lambda body into a single expression:
/// the body runs left to right through fresh single-use bindings and the
/// last expression's value is the body's value.
pub fn expand_lam_body(expr: LExpr, ctx: &mut TransformContext) -> (r: LExpr)
    requires
        is_arity_normal(expr@),
        old(ctx).count() + expr_size(expr@) <= u64::MAX,
    ensures
        (r@, final(ctx).count()) == spec_expand_lam_body(expr@, old(ctx).count()),
    decreases expr,
{
    match expr {
        LExpr::LamOne(arg, body) => {
            let num_body = body.len();
            let ghost bodyvs = view_exprs(body@);
            proof {
                lemma_view_exprs(body@);
                lemma_expand_lam_body_rev_count(bodyvs, old(ctx).count());
            }
            let ghost revspec = spec_expand_lam_body_rev(bodyvs, old(ctx).count());
            let rev = expand_lam_body_rev(body, ctx);
            if num_body == 0 {
                proof {
                    assert(bodyvs.len() == 0);
                }
                LExpr::LamOneOne(arg, Box::new(void_obj()))
            } else {
                let mut rest = rev;
                let ghost revv = view_exprs(rest@);
                proof {
                    lemma_view_exprs_decompose(rest@);
                }
                let first = rest.remove(0);
                proof {
                    assert(view_exprs(rest@) =~= revv.subrange(1, revv.len() as int));
                    assert(first@ == revv[0]);
                }
                let ghost target = seq_chain(
                    revv.subrange(1, revv.len() as int),
                    revv[0],
                    revspec.1,
                );
                proof {
                    lemma_seq_chain_count(revv.subrange(1, revv.len() as int), revv[0], revspec.1);
                }
                let mut acc = first;
                while rest.len() > 0
                    invariant
                        seq_chain(view_exprs(rest@), acc@, ctx.count()) == target,
                        ctx.count() + view_exprs(rest@).len() == target.1,
                        view_exprs(rest@).len() == rest@.len(),
                        target.1 <= u64::MAX,
                    decreases rest.len(),
                {
                    let ghost restv_pre = view_exprs(rest@);
                    let ghost acc_pre = acc@;
                    let ghost n_pre = ctx.count();
                    proof {
                        lemma_view_exprs_decompose(rest@);
                    }
                    let a = rest.remove(0);
                    proof {
                        assert(view_exprs(rest@) =~= restv_pre.subrange(1, restv_pre.len() as int));
                        assert(a@ == restv_pre[0]);
                        lemma_view_exprs(rest@);
                    }
                    let g = ctx.gen_ident("lam_expand");
                    let binder = LExpr::LamOneOne(g, Box::new(acc));
                    let ghost binder_view = LExprView::LamOneOne(
                        anon_ident("lam_expand"@, n_pre),
                        Box::new(acc_pre),
                    );
                    proof {
                        assert(binder@ == binder_view);
                    }
                    acc = LExpr::AppOne(Box::new(binder), Box::new(a));
                    proof {
                        let wrapped = LExprView::AppOne(
                            Box::new(binder_view),
                            Box::new(restv_pre[0]),
                        );
                        assert(acc@ == wrapped);
                        assert(seq_chain(restv_pre, acc_pre, n_pre) == seq_chain(
                            restv_pre.subrange(1, restv_pre.len() as int),
                            wrapped,
                            n_pre + 1,
                        ));
                    }
                }
                proof {
                    assert(view_exprs(rest@).len() == 0);
                    assert(seq_chain(view_exprs(rest@), acc@, ctx.count()) == (
                        acc@,
                        ctx.count(),
                    ));
                }
                LExpr::LamOneOne(arg, Box::new(acc))
            }
        },
        LExpr::AppOne(f, a) => {
            proof {
                lemma_expand_lam_body_count((*f)@, old(ctx).count());
                lemma_expand_lam_body_count((*a)@, spec_expand_lam_body((*f)@, old(ctx).count()).1);
            }
            let fv = expand_lam_body(*f, ctx);
            let av = expand_lam_body(*a, ctx);
            LExpr::AppOne(Box::new(fv), Box::new(av))
        },
        LExpr::Var(name) => LExpr::Var(name),
        LExpr::Lit(l) => LExpr::Lit(l),
        LExpr::BuiltinIdent(name, arity) => LExpr::BuiltinIdent(name, arity),
        _ => unreached(),
    }
}

/// `expand_lam_body` mapped over a body, last expression first; the result
/// holds the rewritten expressions last-first.
fn expand_lam_body_rev(body: Vec<LExpr>, ctx: &mut TransformContext) -> (r: Vec<LExpr>)
    requires
        all_arity_normal(view_exprs(body@)),
        old(ctx).count() + seq_size(view_exprs(body@)) <= u64::MAX,
    ensures
        (view_exprs(r@), final(ctx).count()) == spec_expand_lam_body_rev(
            view_exprs(body@),
            old(ctx).count(),
        ),
    decreases body@,
{
    let mut body = body;
    let ghost orig = body@;
    let ghost origv = view_exprs(orig);
    if body.len() == 0 {
        let r: Vec<LExpr> = Vec::new();
        proof {
            assert(view_exprs(r@) =~= Seq::<LExprView>::empty());
            assert(origv.len() == 0);
        }
        r
    } else {
        proof {
            lemma_view_exprs(orig);
            lemma_all_arity_normal(origv);
            lemma_seq_size_drop_last(origv);
            lemma_expand_lam_body_count(origv[origv.len() - 1], old(ctx).count());
        }
        let last = match body.pop() {
            Some(e) => e,
            None => unreached(),
        };
        proof {
            assert(body@ =~= orig.subrange(0, orig.len() - 1));
            assert(last == orig[orig.len() - 1]);
            assert(last@ == origv[origv.len() - 1]);
            let frontv = view_exprs(body@);
            lemma_view_exprs(body@);
            assert(frontv =~= origv.subrange(0, origv.len() - 1));
            lemma_all_arity_normal(frontv);
        }
        let last_r = expand_lam_body(last, ctx);
        let rest_r = expand_lam_body_rev(body, ctx);
        let mut out = rest_r;
        let ghost rest_view = out@;
        out.insert(0, last_r);
        proof {
            assert(out@.subrange(1, out@.len() as int) =~= rest_view);
            lemma_view_exprs_decompose(out@);
            assert(view_exprs(out@) == seq![last_r@] + view_exprs(rest_view));
            assert((view_exprs(out@), final(ctx).count()) == spec_expand_lam_body_rev(
                origv,
                old(ctx).count(),
            ));
        }
        out
    }
}

/// The sequencing chain keeps the post-sequencing grammar.
pub proof fn lemma_seq_chain_seq_normal(rs: Seq<LExprView>, acc: LExprView, n: nat)
    requires
        is_seq_normal(acc),
        forall|i: int| 0 <= i < rs.len() ==> is_seq_normal(#[trigger] rs[i]),
    ensures
        is_seq_normal(seq_chain(rs, acc, n).0),
    decreases rs.len(),
{
    if rs.len() > 0 {
        let tail = rs.subrange(1, rs.len() as int);
        assert forall|i: int| 0 <= i < tail.len() implies is_seq_normal(#[trigger] tail[i]) by {
            assert(tail[i] == rs[i + 1]);
        }
        let binder = LExprView::LamOneOne(anon_ident("lam_expand"@, n), Box::new(acc));
        assert(is_seq_normal(binder));
        let wrapped = LExprView::AppOne(Box::new(binder), Box::new(rs[0]));
        assert(is_seq_normal(wrapped));
        lemma_seq_chain_seq_normal(tail, wrapped, n + 1);
    }
}

/// After the body sequencer every lambda is `LamOneOne` with a
/// single-expression body; `AppOne` and leaves survive.
pub proof fn lemma_expand_lam_body_seq_normal(e: LExprView, n: nat)
    requires
        is_arity_normal(e),
    ensures
        is_seq_normal(spec_expand_lam_body(e, n).0),
    decreases e, 1int,
{
    match e {
        LExprView::LamOne(arg, body) => {
            lemma_expand_lam_body_rev_seq_normal(body, n);
            lemma_expand_lam_body_rev_count(body, n);
            let rev = spec_expand_lam_body_rev(body, n).0;
            let n1 = spec_expand_lam_body_rev(body, n).1;
            if body.len() == 0 {
                assert(is_seq_normal(LExprView::Lit(ExprLit::Void)));
            } else {
                let tail = rev.subrange(1, rev.len() as int);
                assert forall|i: int| 0 <= i < tail.len() implies is_seq_normal(
                    #[trigger] tail[i],
                ) by {
                    assert(tail[i] == rev[i + 1]);
                }
                lemma_seq_chain_seq_normal(tail, rev[0], n1);
            }
        },
        LExprView::AppOne(f, a) => {
            lemma_expand_lam_body_seq_normal(*f, n);
            lemma_expand_lam_body_seq_normal(*a, spec_expand_lam_body(*f, n).1);
        },
        _ => {},
    }
}

/// `lemma_expand_lam_body_seq_normal` over a reversed body.
pub proof fn lemma_expand_lam_body_rev_seq_normal(es: Seq<LExprView>, n: nat)
    requires
        all_arity_normal(es),
    ensures
        forall|i: int|
            0 <= i < spec_expand_lam_body_rev(es, n).0.len() ==> is_seq_normal(
                #[trigger] spec_expand_lam_body_rev(es, n).0[i],
            ),
    decreases es, 0int,
{
    if es.len() > 0 {
        lemma_all_arity_normal(es);
        lemma_expand_lam_body_seq_normal(es[es.len() - 1], n);
        let n1 = spec_expand_lam_body(es[es.len() - 1], n).1;
        let front = es.subrange(0, es.len() - 1);
        lemma_all_arity_normal(front);
        lemma_expand_lam_body_rev_seq_normal(front, n1);
        let first = spec_expand_lam_body(es[es.len() - 1], n).0;
        let rest = spec_expand_lam_body_rev(front, n1).0;
        let combined = seq![first] + rest;
        assert forall|i: int| 0 <= i < combined.len() implies is_seq_normal(
            #[trigger] combined[i],
        ) by {
            if i > 0 {
                assert(combined[i] == rest[i - 1]);
            }
        }
    }
}

// ---------------------------------------------------------------------------
// CPS conversion
// ---------------------------------------------------------------------------

/// What `cps_transform` produces, with the counter it leaves behind: a
/// `LamOneOne` gains an explicit continuation parameter and its body is
/// rewritten to pass its value to that continuation; every other variant
/// passes through unchanged.
pub open spec fn spec_cps_transform(e: LExprView, n: nat) -> (LExprView, nat)
    decreases e, 0int,
{
    match e {
        LExprView::LamOneOne(arg, body) => {
            let k = anon_ident("cont_var"@, n);
            let (bodyc, n1) = spec_cps_transform_cont(*body, LExprView::Var(k), n + 1);
            (LExprView::LamOneOneCont(arg, k, Box::new(bodyc)), n1)
        },
        _ => (e, n),
    }
}

/// What `cps_transform_cont` produces: code that evaluates `e` and passes
/// its value to `cont`. An application evaluates its operator first, then
/// its operand, each through a fresh administrative continuation, ending
/// in a full CPS call; an atom or lambda is converted and handed to
/// `cont` directly.
pub open spec fn spec_cps_transform_cont(e: LExprView, cont: LExprView, n: nat) -> (
    LExprView,
    nat,
)
    decreases e, 1int,
{
    match e {
        LExprView::AppOne(rator, rand) => {
            let rator_var = anon_ident("rator_var"@, n);
            let rand_var = anon_ident("rand_var"@, n + 1);
            let call = LExprView::AppOneCont(
                Box::new(LExprView::Var(rator_var)),
                Box::new(LExprView::Var(rand_var)),
                Box::new(cont),
            );
            let (inner, n1) = spec_cps_transform_cont(
                *rand,
                LExprView::LamOneOne(rand_var, Box::new(call)),
                n + 2,
            );
            spec_cps_transform_cont(
                *rator,
                LExprView::LamOneOne(rator_var, Box::new(inner)),
                n1,
            )
        },
        _ => {
            let (v, n1) = spec_cps_transform(e, n);
            (LExprView::AppOne(Box::new(cont), Box::new(v)), n1)
        },
    }
}

/// CPS conversion advances the counter by at most twice the tree size.
pub proof fn lemma_cps_transform_count(e: LExprView, n: nat)
    ensures
        n <= spec_cps_transform(e, n).1 <= n + 2 * expr_size(e),
    decreases e, 0int,
{
    match e {
        LExprView::LamOneOne(arg, body) => {
            lemma_cps_transform_cont_count(
                *body,
                LExprView::Var(anon_ident("cont_var"@, n)),
                n + 1,
            );
        },
        _ => {},
    }
}

/// `lemma_cps_transform_count` for the continuation form.
pub proof fn lemma_cps_transform_cont_count(e: LExprView, cont: LExprView, n: nat)
    ensures
        n <= spec_cps_transform_cont(e, cont, n).1 <= n + 2 * expr_size(e),
    decreases e, 1int,
{
    match e {
        LExprView::AppOne(rator, rand) => {
            let rator_var = anon_ident("rator_var"@, n);
            let rand_var = anon_ident("rand_var"@, n + 1);
            let call = LExprView::AppOneCont(
                Box::new(LExprView::Var(rator_var)),
                Box::new(LExprView::Var(rand_var)),
                Box::new(cont),
            );
            lemma_cps_transform_cont_count(
                *rand,
                LExprView::LamOneOne(rand_var, Box::new(call)),
                n + 2,
            );
            let n1 = spec_cps_transform_cont(
                *rand,
                LExprView::LamOneOne(rand_var, Box::new(call)),
                n + 2,
            ).1;
            lemma_cps_transform_cont_count(
                *rator,
                LExprView::LamOneOne(rator_var, Box::new(
                    spec_cps_transform_cont(
                        *rand,
                        LExprView::LamOneOne(rand_var, Box::new(call)),
                        n + 2,
                    ).0,
                )),
                n1,
            );
        },
        _ => {
            lemma_cps_transform_count(e, n);
        },
    }
}

/// Gives a lambda an explicit continuation parameter; every other
/// variant, an already-converted lambda included, passes through
/// unchanged.
pub fn cps_transform(expr: LExpr, ctx: &mut TransformContext) -> (r: LExpr)
    requires
        is_cps_input(expr@),
        old(ctx).count() + 2 * expr_size(expr@) <= u64::MAX,
    ensures
        (r@, final(ctx).count()) == spec_cps_transform(expr@, old(ctx).count()),
    decreases expr, 0int,
{
    match expr {
        LExpr::LamOneOne(arg, body) => {
            let cont_var = ctx.gen_ident("cont_var");
            let cont_var_exp = LExpr::Var(cont_var.clone());
            proof {
                assert(cont_var_exp@ == LExprView::Var(
                    anon_ident("cont_var"@, old(ctx).count()),
                ));
                lemma_cps_transform_cont_count((*body)@, cont_var_exp@, old(ctx).count() + 1);
            }
            let bodyc = cps_transform_cont(*body, cont_var_exp, ctx);
            LExpr::LamOneOneCont(arg, cont_var, Box::new(bodyc))
        },
        other => other,
    }
}

/// Rewrites `expr` into code that evaluates it and passes its value to
/// `cont`, fixing left-to-right evaluation: operator first, then operand,
/// then the call.
pub fn cps_transform_cont(expr: LExpr, cont: LExpr, ctx: &mut TransformContext) -> (r: LExpr)
    requires
        is_cps_input(expr@),
        old(ctx).count() + 2 * expr_size(expr@) <= u64::MAX,
    ensures
        (r@, final(ctx).count()) == spec_cps_transform_cont(expr@, cont@, old(ctx).count()),
    decreases expr, 1int,
{
    match expr {
        LExpr::AppOne(rator, rand) => {
            let ghost n0 = old(ctx).count();
            let rator_var = ctx.gen_ident("rator_var");
            let rator_var_expr = LExpr::Var(rator_var.clone());
            let rand_var = ctx.gen_ident("rand_var");
            let rand_var_expr = LExpr::Var(rand_var.clone());
            proof {
                assert(rator_var_expr@ == LExprView::Var(anon_ident("rator_var"@, n0)));
                assert(rand_var_expr@ == LExprView::Var(anon_ident("rand_var"@, n0 + 1)));
            }
            let ghost cont_view = cont@;
            let call = LExpr::AppOneCont(
                Box::new(rator_var_expr),
                Box::new(rand_var_expr),
                Box::new(cont),
            );
            let ghost call_view = LExprView::AppOneCont(
                Box::new(LExprView::Var(anon_ident("rator_var"@, n0))),
                Box::new(LExprView::Var(anon_ident("rand_var"@, n0 + 1))),
                Box::new(cont_view),
            );
            proof {
                assert(call@ == call_view);
            }
            let inner_cont = LExpr::LamOneOne(rand_var, Box::new(call));
            let ghost inner_cont_view = LExprView::LamOneOne(
                anon_ident("rand_var"@, n0 + 1),
                Box::new(call_view),
            );
            proof {
                assert(inner_cont@ == inner_cont_view);
                lemma_cps_transform_cont_count((*rand)@, inner_cont_view, n0 + 2);
            }
            let inner = cps_transform_cont(*rand, inner_cont, ctx);
            let outer_cont = LExpr::LamOneOne(rator_var, Box::new(inner));
            let ghost inner_view = spec_cps_transform_cont((*rand)@, inner_cont_view, n0 + 2).0;
            let ghost outer_cont_view = LExprView::LamOneOne(
                anon_ident("rator_var"@, n0),
                Box::new(inner_view),
            );
            proof {
                assert(outer_cont@ == outer_cont_view);
                lemma_cps_transform_cont_count(
                    (*rator)@,
                    outer_cont_view,
                    spec_cps_transform_cont((*rand)@, inner_cont_view, n0 + 2).1,
                );
            }
            cps_transform_cont(*rator, outer_cont, ctx)
        },
        other => {
            let v = cps_transform(other, ctx);
            LExpr::AppOne(Box::new(cont), Box::new(v))
        },
    }
}

/// A converted non-application is a CPS value.
pub proof fn lemma_cps_transform_value(e: LExprView, n: nat)
    requires
        is_cps_input(e),
        !(e is AppOne),
    ensures
        is_cps_value(spec_cps_transform(e, n).0),
    decreases e, 0int,
{
    match e {
        LExprView::LamOneOne(arg, body) => {
            let k = anon_ident("cont_var"@, n);
            assert(is_cps_cont(LExprView::Var(k)));
            lemma_cps_transform_cont_body(*body, LExprView::Var(k), n + 1);
        },
        _ => {},
    }
}

/// After CPS conversion the result of `cps_transform_cont` is CPS code:
/// no direct-style application or lambda remains — every `AppOne` applies
/// a continuation to a value, every surviving `LamOneOne` is such a
/// continuation, and every value-level call is `AppOneCont`.
pub proof fn lemma_cps_transform_cont_body(e: LExprView, cont: LExprView, n: nat)
    requires
        is_cps_input(e),
        is_cps_cont(cont),
    ensures
        is_cps_body(spec_cps_transform_cont(e, cont, n).0),
    decreases e, 1int,
{
    match e {
        LExprView::AppOne(rator, rand) => {
            let rator_var = anon_ident("rator_var"@, n);
            let rand_var = anon_ident("rand_var"@, n + 1);
            let call = LExprView::AppOneCont(
                Box::new(LExprView::Var(rator_var)),
                Box::new(LExprView::Var(rand_var)),
                Box::new(cont),
            );
            assert(is_cps_body(call));
            let inner_cont = LExprView::LamOneOne(rand_var, Box::new(call));
            assert(is_cps_cont(inner_cont));
            lemma_cps_transform_cont_body(*rand, inner_cont, n + 2);
            let inner = spec_cps_transform_cont(*rand, inner_cont, n + 2).0;
            let n1 = spec_cps_transform_cont(*rand, inner_cont, n + 2).1;
            let outer_cont = LExprView::LamOneOne(rator_var, Box::new(inner));
            assert(is_cps_cont(outer_cont));
            lemma_cps_transform_cont_body(*rator, outer_cont, n1);
        },
        _ => {
            lemma_cps_transform_value(e, n);
            assert(is_cps_body(LExprView::AppOne(
                Box::new(cont),
                Box::new(spec_cps_transform(e, n).0),
            )));
        },
    }
}

/// The stage invariants compose: from any surface tree, builtin
/// resolution, arity normalization, body sequencing and CPS conversion
/// with a variable continuation yield CPS code.
pub proof fn lemma_pipeline_stages(e: LExprView, k: Seq<char>, n0: nat)
    requires
        is_surface(e),
    ensures
        ({
            let renamed = spec_rename_builtins(e);
            let normalized = spec_expand_lam_app(renamed, n0).0;
            let n1 = spec_expand_lam_app(renamed, n0).1;
            let sequenced = spec_expand_lam_body(normalized, n1).0;
            let n2 = spec_expand_lam_body(normalized, n1).1;
            is_cps_body(spec_cps_transform_cont(sequenced, LExprView::Var(k), n2).0)
        }),
{
    lemma_rename_builtins_surface(e);
    let renamed = spec_rename_builtins(e);
    lemma_expand_lam_app_arity_normal(renamed, n0);
    let normalized = spec_expand_lam_app(renamed, n0).0;
    let n1 = spec_expand_lam_app(renamed, n0).1;
    lemma_expand_lam_body_seq_normal(normalized, n1);
    let sequenced = spec_expand_lam_body(normalized, n1).0;
    let n2 = spec_expand_lam_body(normalized, n1).1;
    lemma_seq_normal_is_cps_input(sequenced);
    assert(is_cps_cont(LExprView::Var(k)));
    lemma_cps_transform_cont_body(sequenced, LExprView::Var(k), n2);
}

// ---------------------------------------------------------------------------
// Determinism
// ---------------------------------------------------------------------------

/// Fresh-name determinism: each pass is a function of its input tree and
/// the counter seed alone, so two runs from equal inputs produce
/// structurally identical output and leave equal counters.
pub proof fn lemma_fresh_name_determinism(
    e1: LExprView,
    e2: LExprView,
    k1: LExprView,
    k2: LExprView,
    n1: nat,
    n2: nat,
)
    requires
        e1 == e2,
        k1 == k2,
        n1 == n2,
    ensures
        spec_rename_builtins(e1) == spec_rename_builtins(e2),
        spec_expand_lam_app(e1, n1) == spec_expand_lam_app(e2, n2),
        spec_expand_lam_body(e1, n1) == spec_expand_lam_body(e2, n2),
        spec_cps_transform(e1, n1) == spec_cps_transform(e2, n2),
        spec_cps_transform_cont(e1, k1, n1) == spec_cps_transform_cont(e2, k2, n2),
{
}

} // verus!
