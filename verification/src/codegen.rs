//! Environment resolution and lambda lifting: every lambda is assigned a
//! dense numeric id and annotated with the lexical environment inside its
//! body; lifting then extracts each lambda into a table keyed by id,
//! leaving `LamRef` references behind.

use vstd::prelude::*;
use vstd::string::StringExecFns;

use crate::c_ast::{
    lemma_view_cexprs, view_cdecls, view_cexprs, CDecl, CDeclView, CExpr, CExprView, CStmt,
    CStmtView, CType, CTypeView,
};
use crate::nodes::{
    env_extend, env_lookup, env_set, expr_size, globals_consistent, lam_ids, lambda_free,
    no_raw_nodes, view_bindings, Env, ExprLit, LExEnv, LExEnvView, LExpr, LExprView,
};
use crate::numerals::{dec_digits, u64_to_string};

verus! {

/// A sequence of consecutive ids `start, start + 1, …, end - 1`.
pub open spec fn id_range(start: nat, end: nat) -> Seq<nat> {
    Seq::new((end - start) as nat, |i: int| (start + i) as nat)
}

// ---------------------------------------------------------------------------
// Environment-resolution context
// ---------------------------------------------------------------------------

/// The resolver's context: the next free slot id, and the authoritative
/// table from lambda id to the environment inside that lambda.
pub struct EnvCtx {
    var_index: usize,
    lam_map: Vec<Env>,
}

impl EnvCtx {
    /// The next slot id to be handed out.
    pub closed spec fn slots(&self) -> nat {
        self.var_index as nat
    }

    /// The environments recorded so far, indexed by lambda id.
    pub closed spec fn lam_envs(&self) -> Seq<Seq<(Seq<char>, nat)>> {
        self.lam_map@.map_values(|e: Env| e@)
    }

    /// A fresh context.
    pub fn new() -> (r: EnvCtx)
        ensures
            r.slots() == 0,
            r.lam_envs() == Seq::<Seq<(Seq<char>, nat)>>::empty(),
    {
        let r = EnvCtx { var_index: 0, lam_map: Vec::new() };
        proof {
            assert(r.lam_envs() =~= Seq::<Seq<(Seq<char>, nat)>>::empty());
        }
        r
    }

    /// Hands out the next globally unique slot id.
    pub fn get_var_index(&mut self) -> (r: usize)
        requires
            old(self).slots() < usize::MAX,
        ensures
            r as nat == old(self).slots(),
            final(self).slots() == old(self).slots() + 1,
            final(self).lam_envs() == old(self).lam_envs(),
    {
        let index = self.var_index;
        self.var_index = self.var_index + 1;
        index
    }

    /// Records `env` as the environment of the next lambda id, and returns
    /// that id.
    pub fn add_lam_map(&mut self, env: Env) -> (r: usize)
        requires
            old(self).lam_envs().len() < usize::MAX,
        ensures
            r as nat == old(self).lam_envs().len(),
            final(self).lam_envs() == old(self).lam_envs().push(env@),
            final(self).slots() == old(self).slots(),
    {
        let index = self.lam_map.len();
        self.lam_map.push(env);
        proof {
            assert(self.lam_envs() =~= old(self).lam_envs().push(env@));
        }
        index
    }
}

// ---------------------------------------------------------------------------
// Environment resolution
// ---------------------------------------------------------------------------

/// What the resolver produces from `e` under the lexical environment
/// `env`, with `vc` the next slot id and `lm` the lambda-environment table
/// so far: every variable is annotated with `env` and marked `global`
/// exactly when `env` does not bind it; every lambda binds its
/// parameter(s) to fresh consecutive slot ids (value parameter first),
/// is assigned the next dense lambda id before its body is resolved, and
/// carries the extended environment.
pub open spec fn spec_resolve(
    e: LExprView,
    env: Seq<(Seq<char>, nat)>,
    vc: nat,
    lm: Seq<Seq<(Seq<char>, nat)>>,
) -> (LExEnvView, nat, Seq<Seq<(Seq<char>, nat)>>)
    decreases e,
{
    match e {
        LExprView::Var(name) => (
            LExEnvView::Var { name, global: env_lookup(env, name).is_none(), env },
            vc,
            lm,
        ),
        LExprView::AppOne(f, a) => {
            let (cv, vc1, lm1) = spec_resolve(*f, env, vc, lm);
            let (rv, vc2, lm2) = spec_resolve(*a, env, vc1, lm1);
            (LExEnvView::App1 { cont: Box::new(cv), rand: Box::new(rv), env }, vc2, lm2)
        },
        LExprView::AppOneCont(f, a, k) => {
            let (fv, vc1, lm1) = spec_resolve(*f, env, vc, lm);
            let (av, vc2, lm2) = spec_resolve(*a, env, vc1, lm1);
            let (kv, vc3, lm3) = spec_resolve(*k, env, vc2, lm2);
            (
                LExEnvView::App2 {
                    rator: Box::new(fv),
                    rand: Box::new(av),
                    cont: Box::new(kv),
                    env,
                },
                vc3,
                lm3,
            )
        },
        LExprView::LamOneOne(arg, body) => {
            let new_env = env_set(env, arg, vc);
            let id = lm.len();
            let (bv, vc1, lm1) = spec_resolve(*body, new_env, vc + 1, lm.push(new_env));
            (LExEnvView::Lam { arg, expr: Box::new(bv), env: new_env, id }, vc1, lm1)
        },
        LExprView::LamOneOneCont(arg, cont, body) => {
            let new_env = env_set(env_set(env, arg, vc), cont, vc + 1);
            let id = lm.len();
            let (bv, vc1, lm1) = spec_resolve(*body, new_env, vc + 2, lm.push(new_env));
            (
                LExEnvView::LamCont { arg, cont, expr: Box::new(bv), env: new_env, id },
                vc1,
                lm1,
            )
        },
        LExprView::Lit(val) => (LExEnvView::Lit { val }, vc, lm),
        LExprView::BuiltinIdent(name, arity) => (
            LExEnvView::BuiltinIdent { name, arity },
            vc,
            lm,
        ),
        _ => (LExEnvView::Lit { val: crate::nodes::ExprLit::Void }, vc, lm),
    }
}

/// Resolution allocates at most two slots and one table entry per node.
pub proof fn lemma_resolve_count(
    e: LExprView,
    env: Seq<(Seq<char>, nat)>,
    vc: nat,
    lm: Seq<Seq<(Seq<char>, nat)>>,
)
    ensures
        vc <= spec_resolve(e, env, vc, lm).1 <= vc + 2 * expr_size(e),
        lm.len() <= spec_resolve(e, env, vc, lm).2.len() <= lm.len() + expr_size(e),
    decreases e,
{
    match e {
        LExprView::AppOne(f, a) => {
            lemma_resolve_count(*f, env, vc, lm);
            let (cv, vc1, lm1) = spec_resolve(*f, env, vc, lm);
            lemma_resolve_count(*a, env, vc1, lm1);
        },
        LExprView::AppOneCont(f, a, k) => {
            lemma_resolve_count(*f, env, vc, lm);
            let (fv, vc1, lm1) = spec_resolve(*f, env, vc, lm);
            lemma_resolve_count(*a, env, vc1, lm1);
            let (av, vc2, lm2) = spec_resolve(*a, env, vc1, lm1);
            lemma_resolve_count(*k, env, vc2, lm2);
        },
        LExprView::LamOneOne(arg, body) => {
            let new_env = env_set(env, arg, vc);
            lemma_resolve_count(*body, new_env, vc + 1, lm.push(new_env));
        },
        LExprView::LamOneOneCont(arg, cont, body) => {
            let new_env = env_set(env_set(env, arg, vc), cont, vc + 1);
            lemma_resolve_count(*body, new_env, vc + 2, lm.push(new_env));
        },
        _ => {},
    }
}

/// A copy of `env` with the same bindings.
fn clone_env(env: &Env) -> (r: Env)
    ensures
        r@ == env@,
{
    let r = Env::new(env, Vec::new());
    proof {
        assert(view_bindings(Seq::<(String, usize)>::empty()) =~= Seq::<(
            Seq<char>,
            nat,
        )>::empty());
        assert(r@ == env_extend(env@, Seq::<(Seq<char>, nat)>::empty()));
    }
    r
}

/// Resolves variables of `node` against `env`, assigning slot and lambda
/// ids through `ctx`.
#[verifier::rlimit(80)]
fn resolve_env_internal(node: LExpr, env: &Env, ctx: &mut EnvCtx) -> (r: LExEnv)
    requires
        no_raw_nodes(node@),
        old(ctx).slots() + 2 * expr_size(node@) <= usize::MAX,
        old(ctx).lam_envs().len() + expr_size(node@) <= usize::MAX,
    ensures
        (r@, final(ctx).slots(), final(ctx).lam_envs()) == spec_resolve(
            node@,
            env@,
            old(ctx).slots(),
            old(ctx).lam_envs(),
        ),
    decreases node,
{
    match node {
        LExpr::Var(name) => {
            let global = match env.get(&name) {
                Some(_) => false,
                None => true,
            };
            LExEnv::Var { name, global, env: clone_env(env) }
        },
        LExpr::AppOne(operator, operand) => {
            proof {
                lemma_resolve_count(
                    (*operator)@,
                    env@,
                    old(ctx).slots(),
                    old(ctx).lam_envs(),
                );
            }
            let cont = resolve_env_internal(*operator, env, ctx);
            let rand = resolve_env_internal(*operand, env, ctx);
            LExEnv::App1 { cont: Box::new(cont), rand: Box::new(rand), env: clone_env(env) }
        },
        LExpr::AppOneCont(operator, operand, cont) => {
            proof {
                lemma_resolve_count(
                    (*operator)@,
                    env@,
                    old(ctx).slots(),
                    old(ctx).lam_envs(),
                );
            }
            let rator = resolve_env_internal(*operator, env, ctx);
            proof {
                lemma_resolve_count((*operand)@, env@, ctx.slots(), ctx.lam_envs());
            }
            let rand = resolve_env_internal(*operand, env, ctx);
            let kont = resolve_env_internal(*cont, env, ctx);
            LExEnv::App2 {
                rator: Box::new(rator),
                rand: Box::new(rand),
                cont: Box::new(kont),
                env: clone_env(env),
            }
        },
        LExpr::LamOneOne(arg, expr) => {
            let idx = ctx.get_var_index();
            let mut vals: Vec<(String, usize)> = Vec::new();
            vals.push((arg.clone(), idx));
            proof {
                assert(view_bindings(vals@) =~= seq![(arg@, idx as nat)]);
                assert(seq![(arg@, idx as nat)].subrange(1, 1) =~= Seq::<(
                    Seq<char>,
                    nat,
                )>::empty());
            }
            let new_env = Env::new(env, vals);
            proof {
                let pairs = seq![(arg@, idx as nat)];
                let e1 = env_set(env@, arg@, idx as nat);
                assert(env_extend(env@, pairs) == env_extend(e1, pairs.subrange(1, 1)));
                assert(env_extend(e1, Seq::<(Seq<char>, nat)>::empty()) == e1);
                assert(new_env@ == env_set(env@, arg@, idx as nat));
            }
            let id = ctx.add_lam_map(clone_env(&new_env));
            let body = resolve_env_internal(*expr, &new_env, ctx);
            LExEnv::Lam { arg, expr: Box::new(body), env: new_env, id }
        },
        LExpr::LamOneOneCont(arg, cont, expr) => {
            let idx_a = ctx.get_var_index();
            let idx_k = ctx.get_var_index();
            let mut vals: Vec<(String, usize)> = Vec::new();
            vals.push((arg.clone(), idx_a));
            vals.push((cont.clone(), idx_k));
            proof {
                assert(view_bindings(vals@) =~= seq![
                    (arg@, idx_a as nat),
                    (cont@, idx_k as nat),
                ]);
                let pairs = seq![(arg@, idx_a as nat), (cont@, idx_k as nat)];
                assert(pairs.subrange(1, 2) =~= seq![(cont@, idx_k as nat)]);
                assert(seq![(cont@, idx_k as nat)].subrange(1, 1) =~= Seq::<(
                    Seq<char>,
                    nat,
                )>::empty());
            }
            let new_env = Env::new(env, vals);
            proof {
                let pairs = seq![(arg@, idx_a as nat), (cont@, idx_k as nat)];
                let e1 = env_set(env@, arg@, idx_a as nat);
                let e2 = env_set(e1, cont@, idx_k as nat);
                assert(env_extend(env@, pairs) == env_extend(e1, pairs.subrange(1, 2)));
                assert(pairs.subrange(1, 2)[0] == (cont@, idx_k as nat));
                assert(env_extend(e1, pairs.subrange(1, 2)) == env_extend(
                    e2,
                    pairs.subrange(1, 2).subrange(1, 1),
                ));
                assert(pairs.subrange(1, 2).subrange(1, 1) =~= Seq::<(Seq<char>, nat)>::empty());
                assert(env_extend(e2, Seq::<(Seq<char>, nat)>::empty()) == e2);
                assert(new_env@ == e2);
            }
            let id = ctx.add_lam_map(clone_env(&new_env));
            let body = resolve_env_internal(*expr, &new_env, ctx);
            LExEnv::LamCont { arg, cont, expr: Box::new(body), env: new_env, id }
        },
        LExpr::Lit(val) => LExEnv::Lit { val },
        LExpr::BuiltinIdent(name, arity) => LExEnv::BuiltinIdent { name, arity },
        _ => unreached(),
    }
}

/// Resolves a whole post-CPS program against the empty environment with a
/// fresh context, returning the annotated tree and the context that owns
/// the table `lambda id -> environment`.
pub fn resolve_env(node: LExpr) -> (r: (LExEnv, EnvCtx))
    requires
        no_raw_nodes(node@),
        2 * expr_size(node@) <= usize::MAX,
    ensures
        (r.0@, r.1.slots(), r.1.lam_envs()) == spec_resolve(
            node@,
            Seq::empty(),
            0,
            Seq::empty(),
        ),
{
    let mut ctx = EnvCtx::new();
    let primary_env = Env::empty();
    let resolved = resolve_env_internal(node, &primary_env, &mut ctx);
    (resolved, ctx)
}

/// After resolution, every `Var` is marked `global` exactly when its own
/// environment does not bind its name.
pub proof fn lemma_resolve_globals_consistent(
    e: LExprView,
    env: Seq<(Seq<char>, nat)>,
    vc: nat,
    lm: Seq<Seq<(Seq<char>, nat)>>,
)
    requires
        no_raw_nodes(e),
    ensures
        globals_consistent(spec_resolve(e, env, vc, lm).0),
    decreases e,
{
    match e {
        LExprView::AppOne(f, a) => {
            lemma_resolve_globals_consistent(*f, env, vc, lm);
            let (cv, vc1, lm1) = spec_resolve(*f, env, vc, lm);
            lemma_resolve_globals_consistent(*a, env, vc1, lm1);
        },
        LExprView::AppOneCont(f, a, k) => {
            lemma_resolve_globals_consistent(*f, env, vc, lm);
            let (fv, vc1, lm1) = spec_resolve(*f, env, vc, lm);
            lemma_resolve_globals_consistent(*a, env, vc1, lm1);
            let (av, vc2, lm2) = spec_resolve(*a, env, vc1, lm1);
            lemma_resolve_globals_consistent(*k, env, vc2, lm2);
        },
        LExprView::LamOneOne(arg, body) => {
            let new_env = env_set(env, arg, vc);
            lemma_resolve_globals_consistent(*body, new_env, vc + 1, lm.push(new_env));
        },
        LExprView::LamOneOneCont(arg, cont, body) => {
            let new_env = env_set(env_set(env, arg, vc), cont, vc + 1);
            lemma_resolve_globals_consistent(*body, new_env, vc + 2, lm.push(new_env));
        },
        _ => {},
    }
}

/// Lambda ids are dense and assigned in traversal order: the ids of the
/// resolved tree, read off in preorder, are exactly the consecutive ids
/// from the table length before resolution to the table length after; in
/// particular, from a fresh context they are `0, 1, …, n - 1`, each
/// occurring exactly once.
pub proof fn lemma_resolve_lam_ids(
    e: LExprView,
    env: Seq<(Seq<char>, nat)>,
    vc: nat,
    lm: Seq<Seq<(Seq<char>, nat)>>,
)
    requires
        no_raw_nodes(e),
    ensures
        lam_ids(spec_resolve(e, env, vc, lm).0) == id_range(
            lm.len(),
            spec_resolve(e, env, vc, lm).2.len(),
        ),
        spec_resolve(e, env, vc, lm).2.len() >= lm.len(),
    decreases e,
{
    lemma_resolve_count(e, env, vc, lm);
    match e {
        LExprView::AppOne(f, a) => {
            lemma_resolve_lam_ids(*f, env, vc, lm);
            let (cv, vc1, lm1) = spec_resolve(*f, env, vc, lm);
            lemma_resolve_lam_ids(*a, env, vc1, lm1);
            let (rv, vc2, lm2) = spec_resolve(*a, env, vc1, lm1);
            assert(lam_ids(spec_resolve(e, env, vc, lm).0) =~= id_range(lm.len(), lm2.len()));
        },
        LExprView::AppOneCont(f, a, k) => {
            lemma_resolve_lam_ids(*f, env, vc, lm);
            let (fv, vc1, lm1) = spec_resolve(*f, env, vc, lm);
            lemma_resolve_lam_ids(*a, env, vc1, lm1);
            let (av, vc2, lm2) = spec_resolve(*a, env, vc1, lm1);
            lemma_resolve_lam_ids(*k, env, vc2, lm2);
            let (kv, vc3, lm3) = spec_resolve(*k, env, vc2, lm2);
            assert(lam_ids(spec_resolve(e, env, vc, lm).0) =~= id_range(lm.len(), lm3.len()));
        },
        LExprView::LamOneOne(arg, body) => {
            let new_env = env_set(env, arg, vc);
            lemma_resolve_lam_ids(*body, new_env, vc + 1, lm.push(new_env));
            assert(lam_ids(spec_resolve(e, env, vc, lm).0) =~= id_range(
                lm.len(),
                spec_resolve(e, env, vc, lm).2.len(),
            ));
        },
        LExprView::LamOneOneCont(arg, cont, body) => {
            let new_env = env_set(env_set(env, arg, vc), cont, vc + 1);
            lemma_resolve_lam_ids(*body, new_env, vc + 2, lm.push(new_env));
            assert(lam_ids(spec_resolve(e, env, vc, lm).0) =~= id_range(
                lm.len(),
                spec_resolve(e, env, vc, lm).2.len(),
            ));
        },
        _ => {
            assert(lam_ids(spec_resolve(e, env, vc, lm).0) =~= id_range(lm.len(), lm.len()));
        },
    }
}

/// From a fresh context the resolver's lambda ids are `0, 1, …, n - 1` in
/// traversal order, where `n` is the number of environments it records:
/// dense, and each id used exactly once.
pub proof fn lemma_resolve_ids_dense(e: LExprView)
    requires
        no_raw_nodes(e),
    ensures
        lam_ids(spec_resolve(e, Seq::empty(), 0, Seq::empty()).0) == id_range(
            0,
            spec_resolve(e, Seq::empty(), 0, Seq::empty()).2.len(),
        ),
{
    lemma_resolve_lam_ids(e, Seq::empty(), 0, Seq::empty());
}

// ---------------------------------------------------------------------------
// Lambda lifting
// ---------------------------------------------------------------------------

/// The map a sequence of `(id, lambda)` pairs denotes: later pairs win.
pub open spec fn table_view(ps: Seq<(usize, LExEnv)>) -> Map<nat, LExEnvView>
    decreases ps.len(),
{
    if ps.len() == 0 {
        Map::empty()
    } else {
        table_view(ps.subrange(0, ps.len() - 1)).insert(
            ps[ps.len() - 1].0 as nat,
            ps[ps.len() - 1].1@,
        )
    }
}

/// The table of lifted lambdas, keyed by lambda id.
pub struct LamTable(pub Vec<(usize, LExEnv)>);

impl View for LamTable {
    type V = Map<nat, LExEnvView>;

    open spec fn view(&self) -> Map<nat, LExEnvView> {
        table_view(self.0@)
    }
}

impl LamTable {
    /// An empty table.
    pub fn new() -> (r: LamTable)
        ensures
            r@ == Map::<nat, LExEnvView>::empty(),
    {
        let r = LamTable(Vec::new());
        proof {
            assert(r.0@.len() == 0);
        }
        r
    }

    /// Inserts `lam` under `id`, replacing any earlier entry for `id`.
    pub fn insert(&mut self, id: usize, lam: LExEnv)
        ensures
            final(self)@ == old(self)@.insert(id as nat, lam@),
    {
        let ghost prev = self.0@;
        self.0.push((id, lam));
        proof {
            assert(self.0@.subrange(0, self.0@.len() - 1) =~= prev);
            assert(table_view(self.0@) == table_view(prev).insert(id as nat, lam@));
        }
    }

    /// The lambda stored under `id`, if any.
    pub fn get(&self, id: usize) -> (r: Option<&LExEnv>)
        ensures
            match r {
                Some(l) => self@.contains_key(id as nat) && l@ == self@[id as nat],
                None => !self@.contains_key(id as nat),
            },
    {
        let mut i: usize = self.0.len();
        proof {
            assert(self.0@.subrange(0, self.0@.len() as int) =~= self.0@);
        }
        while i > 0
            invariant
                i <= self.0.len(),
                self@.contains_key(id as nat) == table_view(
                    self.0@.subrange(0, i as int),
                ).contains_key(id as nat),
                self@.contains_key(id as nat) ==> self@[id as nat] == table_view(
                    self.0@.subrange(0, i as int),
                )[id as nat],
            decreases i,
        {
            i = i - 1;
            proof {
                let cur = self.0@.subrange(0, i + 1);
                assert(cur[cur.len() - 1] == self.0@[i as int]);
                assert(cur.subrange(0, cur.len() - 1) =~= self.0@.subrange(0, i as int));
            }
            if self.0[i].0 == id {
                return Some(&self.0[i].1);
            }
        }
        proof {
            assert(self.0@.subrange(0, 0) =~= Seq::<(usize, LExEnv)>::empty());
        }
        None
    }
}

/// What lifting produces from `x`, threading the table built so far:
/// every lambda's body is lifted first, the rebuilt lambda is stored under
/// its id, and a `LamRef` takes its place; applications recurse and leaves
/// return themselves.
pub open spec fn spec_extract(x: LExEnvView, m: Map<nat, LExEnvView>) -> (
    LExEnvView,
    Map<nat, LExEnvView>,
)
    decreases x,
{
    match x {
        LExEnvView::Lam { arg, expr, env, id } => {
            let (ev, m1) = spec_extract(*expr, m);
            (
                LExEnvView::LamRef { id },
                m1.insert(id, LExEnvView::Lam { arg, expr: Box::new(ev), env, id }),
            )
        },
        LExEnvView::LamCont { arg, cont, expr, env, id } => {
            let (ev, m1) = spec_extract(*expr, m);
            (
                LExEnvView::LamRef { id },
                m1.insert(id, LExEnvView::LamCont { arg, cont, expr: Box::new(ev), env, id }),
            )
        },
        LExEnvView::App1 { cont, rand, env } => {
            let (cv, m1) = spec_extract(*cont, m);
            let (rv, m2) = spec_extract(*rand, m1);
            (LExEnvView::App1 { cont: Box::new(cv), rand: Box::new(rv), env }, m2)
        },
        LExEnvView::App2 { rator, rand, cont, env } => {
            let (fv, m1) = spec_extract(*rator, m);
            let (rv, m2) = spec_extract(*rand, m1);
            let (cv, m3) = spec_extract(*cont, m2);
            (
                LExEnvView::App2 {
                    rator: Box::new(fv),
                    rand: Box::new(rv),
                    cont: Box::new(cv),
                    env,
                },
                m3,
            )
        },
        _ => (x, m),
    }
}

/// Lifts every lambda of `node` into `table`.
fn extract_lambdas_into(node: LExEnv, table: &mut LamTable) -> (r: LExEnv)
    ensures
        (r@, final(table)@) == spec_extract(node@, old(table)@),
    decreases node,
{
    match node {
        LExEnv::Lam { arg, expr, env, id } => {
            let inner = extract_lambdas_into(*expr, table);
            let rebuilt = LExEnv::Lam { arg, expr: Box::new(inner), env, id };
            table.insert(id, rebuilt);
            LExEnv::LamRef { id }
        },
        LExEnv::LamCont { arg, cont, expr, env, id } => {
            let inner = extract_lambdas_into(*expr, table);
            let rebuilt = LExEnv::LamCont { arg, cont, expr: Box::new(inner), env, id };
            table.insert(id, rebuilt);
            LExEnv::LamRef { id }
        },
        LExEnv::App1 { cont, rand, env } => {
            let new_cont = extract_lambdas_into(*cont, table);
            let new_rand = extract_lambdas_into(*rand, table);
            LExEnv::App1 { cont: Box::new(new_cont), rand: Box::new(new_rand), env }
        },
        LExEnv::App2 { rator, rand, cont, env } => {
            let new_rator = extract_lambdas_into(*rator, table);
            let new_rand = extract_lambdas_into(*rand, table);
            let new_cont = extract_lambdas_into(*cont, table);
            LExEnv::App2 {
                rator: Box::new(new_rator),
                rand: Box::new(new_rand),
                cont: Box::new(new_cont),
                env,
            }
        },
        other => other,
    }
}

/// Extracts every lambda of `node` into a table keyed by lambda id,
/// replacing each with a `LamRef` to its id.
pub fn extract_lambdas(node: LExEnv) -> (r: (LExEnv, LamTable))
    ensures
        (r.0@, r.1@) == spec_extract(node@, Map::<nat, LExEnvView>::empty()),
{
    let mut table = LamTable::new();
    let expr = extract_lambdas_into(node, &mut table);
    (expr, table)
}

/// After lifting: the main expression holds no lambda; the table holds an
/// entry exactly for every lambda id of the input (beyond those already
/// present), and each entry stored by lifting is a lambda, keyed by its
/// own id, whose body holds no nested lambda either — only `LamRef`s.
pub proof fn lemma_extract_wellformed(x: LExEnvView, m: Map<nat, LExEnvView>)
    ensures
        lambda_free(spec_extract(x, m).0),
        forall|id: nat|
            spec_extract(x, m).1.contains_key(id) <==> (m.contains_key(id) || lam_ids(
                x,
            ).contains(id)),
        forall|id: nat|
            #[trigger] spec_extract(x, m).1.contains_key(id) ==> (lifted_entry_ok(
                id,
                spec_extract(x, m).1[id],
            ) || (m.contains_key(id) && spec_extract(x, m).1[id] == m[id])),
    decreases x,
{
    match x {
        LExEnvView::Lam { arg, expr, env, id } => {
            lemma_extract_wellformed(*expr, m);
            assert forall|j: nat|
                spec_extract(x, m).1.contains_key(j) <==> (m.contains_key(j) || lam_ids(
                    x,
                ).contains(j)) by {
                lemma_extract_wellformed(*expr, m);
                if j == id {
                    assert(lam_ids(x)[0] == id);
                    assert(lam_ids(x).contains(j));
                } else {
                    assert(lam_ids(x).contains(j) <==> lam_ids(*expr).contains(j)) by {
                        if lam_ids(*expr).contains(j) {
                            let w = choose|w: int|
                                0 <= w < lam_ids(*expr).len() && lam_ids(*expr)[w] == j;
                            assert(lam_ids(x)[w + 1] == j);
                        }
                        if lam_ids(x).contains(j) {
                            let w = choose|w: int|
                                0 <= w < lam_ids(x).len() && lam_ids(x)[w] == j;
                            assert(w != 0);
                            assert(lam_ids(*expr)[w - 1] == j);
                        }
                    }
                }
            }
        },
        LExEnvView::LamCont { arg, cont, expr, env, id } => {
            lemma_extract_wellformed(*expr, m);
            assert forall|j: nat|
                spec_extract(x, m).1.contains_key(j) <==> (m.contains_key(j) || lam_ids(
                    x,
                ).contains(j)) by {
                if j == id {
                    assert(lam_ids(x)[0] == id);
                    assert(lam_ids(x).contains(j));
                } else {
                    assert(lam_ids(x).contains(j) <==> lam_ids(*expr).contains(j)) by {
                        if lam_ids(*expr).contains(j) {
                            let w = choose|w: int|
                                0 <= w < lam_ids(*expr).len() && lam_ids(*expr)[w] == j;
                            assert(lam_ids(x)[w + 1] == j);
                        }
                        if lam_ids(x).contains(j) {
                            let w = choose|w: int|
                                0 <= w < lam_ids(x).len() && lam_ids(x)[w] == j;
                            assert(w != 0);
                            assert(lam_ids(*expr)[w - 1] == j);
                        }
                    }
                }
            }
        },
        LExEnvView::App1 { cont, rand, env } => {
            lemma_extract_wellformed(*cont, m);
            let m1 = spec_extract(*cont, m).1;
            lemma_extract_wellformed(*rand, m1);
            assert forall|j: nat|
                spec_extract(x, m).1.contains_key(j) <==> (m.contains_key(j) || lam_ids(
                    x,
                ).contains(j)) by {
                lemma_concat_contains(lam_ids(*cont), lam_ids(*rand), j);
            }
        },
        LExEnvView::App2 { rator, rand, cont, env } => {
            lemma_extract_wellformed(*rator, m);
            let m1 = spec_extract(*rator, m).1;
            lemma_extract_wellformed(*rand, m1);
            let m2 = spec_extract(*rand, m1).1;
            lemma_extract_wellformed(*cont, m2);
            assert forall|j: nat|
                spec_extract(x, m).1.contains_key(j) <==> (m.contains_key(j) || lam_ids(
                    x,
                ).contains(j)) by {
                lemma_concat_contains(lam_ids(*rator), lam_ids(*rand), j);
                lemma_concat_contains(lam_ids(*rator) + lam_ids(*rand), lam_ids(*cont), j);
            }
        },
        _ => {},
    }
}

/// A lifted table entry: a lambda keyed by its own id whose body holds no
/// nested lambda.
pub open spec fn lifted_entry_ok(id: nat, v: LExEnvView) -> bool {
    match v {
        LExEnvView::Lam { expr, id: vid, .. } => vid == id && lambda_free(*expr),
        LExEnvView::LamCont { expr, id: vid, .. } => vid == id && lambda_free(*expr),
        _ => false,
    }
}

/// From an empty table, lifting leaves a lambda-free main expression and
/// produces exactly one table entry per lambda id of the input, each a
/// lambda stored under its own id whose body is itself lambda-free.
pub proof fn lemma_extract_exact(x: LExEnvView)
    ensures
        lambda_free(spec_extract(x, Map::<nat, LExEnvView>::empty()).0),
        forall|id: nat|
            spec_extract(x, Map::<nat, LExEnvView>::empty()).1.contains_key(id) <==> lam_ids(
                x,
            ).contains(id),
        forall|id: nat|
            #[trigger] spec_extract(x, Map::<nat, LExEnvView>::empty()).1.contains_key(id)
                ==> lifted_entry_ok(id, spec_extract(x, Map::<nat, LExEnvView>::empty()).1[id]),
{
    lemma_extract_wellformed(x, Map::<nat, LExEnvView>::empty());
}

// ---------------------------------------------------------------------------
// Code emission
// ---------------------------------------------------------------------------

/// The C symbol of the lifted lambda `id`.
pub open spec fn lambda_name(id: nat) -> Seq<char> {
    "lambda_"@ + dec_digits(id)
}

/// The pointer-to-object type every runtime value has in emitted code.
pub open spec fn object_ptr() -> CTypeView {
    CTypeView::Ptr(Box::new(CTypeView::Struct("object"@)))
}

/// What a runtime-global variable reference compiles to: a call that
/// hands the variable's name to the runtime's global-table lookup. The
/// runtime implements the resolution; the emitter only names it.
pub open spec fn spec_global_lookup(name: Seq<char>) -> CExprView {
    CExprView::FunCallOp {
        expr: Box::new(CExprView::LitStr("global_lookup"@)),
        args: seq![CExprView::LitStr(name)],
    }
}

/// What a lexically bound variable reference compiles to: a local
/// environment lookup keyed by the slot id assigned at resolution time.
pub open spec fn spec_local_lookup(slot: nat) -> CExprView {
    CExprView::FunCallOp {
        expr: Box::new(CExprView::LitStr("local_lookup"@)),
        args: seq![CExprView::LitInt(slot as i64)],
    }
}

/// Every slot id a bound variable would emit fits a C integer literal.
pub open spec fn var_slots_fit(x: LExEnvView) -> bool
    decreases x,
{
    match x {
        LExEnvView::Lam { expr, .. } => var_slots_fit(*expr),
        LExEnvView::LamCont { expr, .. } => var_slots_fit(*expr),
        LExEnvView::App1 { cont, rand, .. } => var_slots_fit(*cont) && var_slots_fit(*rand),
        LExEnvView::App2 { rator, rand, cont, .. } => var_slots_fit(*rator) && var_slots_fit(
            *rand,
        ) && var_slots_fit(*cont),
        LExEnvView::Var { name, env, .. } => match env_lookup(env, name) {
            Some(slot) => slot <= i64::MAX as nat,
            None => true,
        },
        _ => true,
    }
}

/// What the emitter produces for a lifted expression: `LamRef` becomes the
/// function symbol, a variable becomes a runtime lookup — by slot id where
/// its environment binds it, by name otherwise — `App1`/`App2` become call
/// expressions, and literals become C literals.
pub open spec fn spec_codegen(x: LExEnvView) -> CExprView
    decreases x,
{
    match x {
        LExEnvView::LamRef { id } => CExprView::LitStr(lambda_name(id)),
        LExEnvView::Var { name, global, env } => if global {
            spec_global_lookup(name)
        } else {
            match env_lookup(env, name) {
                Some(slot) => spec_local_lookup(slot),
                None => spec_global_lookup(name),
            }
        },
        LExEnvView::App1 { cont, rand, .. } => CExprView::FunCallOp {
            expr: Box::new(spec_codegen(*cont)),
            args: seq![spec_codegen(*rand)],
        },
        LExEnvView::App2 { rator, rand, cont, .. } => CExprView::FunCallOp {
            expr: Box::new(spec_codegen(*rator)),
            args: seq![spec_codegen(*rand), spec_codegen(*cont)],
        },
        LExEnvView::Lit { val: ExprLit::Int(v) } => CExprView::LitInt(v),
        LExEnvView::Lit { val: ExprLit::Void } => CExprView::LitStr("NULL"@),
        LExEnvView::BuiltinIdent { name, .. } => CExprView::LitStr(name),
        _ => CExprView::LitStr(Seq::empty()),
    }
}

/// The C symbol of the lifted lambda `id`, as a string.
fn lambda_name_string(id: usize) -> (r: String)
    ensures
        r@ == lambda_name(id as nat),
{
    let mut s = String::from_str("lambda_");
    let num = u64_to_string(id as u64);
    s.append(num.as_str());
    proof {
        assert(id as u64 as nat == id as nat);
    }
    s
}

/// A global lookup expression carrying `name`; the runtime provides the
/// actual resolution.
fn gen_global_lookup(name: String) -> (r: CExpr)
    ensures
        r@ == spec_global_lookup(name@),
{
    let ghost name_view = name@;
    let mut args: Vec<CExpr> = Vec::new();
    args.push(CExpr::LitStr(name));
    proof {
        lemma_view_cexprs(args@);
        assert(view_cexprs(args@) =~= seq![CExprView::LitStr(name_view)]);
    }
    let callee = CExpr::LitStr(String::from_str("global_lookup"));
    proof {
        assert(callee@ == CExprView::LitStr("global_lookup"@));
    }
    CExpr::FunCallOp { expr: Box::new(callee), args }
}

/// A local lookup expression carrying the slot id of the binding.
fn gen_local_lookup(slot: usize) -> (r: CExpr)
    requires
        slot <= i64::MAX as nat,
    ensures
        r@ == spec_local_lookup(slot as nat),
{
    let mut args: Vec<CExpr> = Vec::new();
    args.push(CExpr::LitInt(slot as i64));
    proof {
        lemma_view_cexprs(args@);
        assert(view_cexprs(args@) =~= seq![CExprView::LitInt(slot as i64)]);
    }
    let callee = CExpr::LitStr(String::from_str("local_lookup"));
    proof {
        assert(callee@ == CExprView::LitStr("local_lookup"@));
    }
    CExpr::FunCallOp { expr: Box::new(callee), args }
}

/// Generates the C expression for a lifted (lambda-free) expression.
pub fn codegen(expr: &LExEnv) -> (r: CExpr)
    requires
        lambda_free(expr@),
        var_slots_fit(expr@),
    ensures
        r@ == spec_codegen(expr@),
    decreases expr,
{
    match expr {
        LExEnv::LamRef { id } => CExpr::LitStr(lambda_name_string(*id)),
        LExEnv::Var { name, global, env } => {
            if *global {
                gen_global_lookup(name.clone())
            } else {
                match env.get(name) {
                    Some(slot) => gen_local_lookup(slot),
                    None => gen_global_lookup(name.clone()),
                }
            }
        },
        LExEnv::App1 { cont, rand, .. } => {
            let cont_compiled = codegen(cont);
            let rand_compiled = codegen(rand);
            let mut args: Vec<CExpr> = Vec::new();
            args.push(rand_compiled);
            proof {
                lemma_view_cexprs(args@);
                assert(view_cexprs(args@) =~= seq![spec_codegen((**rand)@)]);
            }
            CExpr::FunCallOp { expr: Box::new(cont_compiled), args }
        },
        LExEnv::App2 { rator, rand, cont, .. } => {
            let rator_compiled = codegen(rator);
            let rand_compiled = codegen(rand);
            let cont_compiled = codegen(cont);
            let mut args: Vec<CExpr> = Vec::new();
            args.push(rand_compiled);
            args.push(cont_compiled);
            proof {
                lemma_view_cexprs(args@);
                assert(view_cexprs(args@) =~= seq![
                    spec_codegen((**rand)@),
                    spec_codegen((**cont)@),
                ]);
            }
            CExpr::FunCallOp { expr: Box::new(rator_compiled), args }
        },
        LExEnv::Lit { val } => match val {
            ExprLit::Int(v) => CExpr::LitInt(*v),
            ExprLit::Void => CExpr::LitStr(String::from_str("NULL")),
        },
        LExEnv::BuiltinIdent { name, .. } => CExpr::LitStr(name.clone()),
        _ => unreached(),
    }
}

/// A lifted-table entry ready for emission: a lambda whose body holds no
/// nested lambda and whose bound variables' slot ids fit C literals.
pub open spec fn is_lambda_def(v: LExEnvView) -> bool {
    match v {
        LExEnvView::Lam { expr, .. } => lambda_free(*expr) && var_slots_fit(*expr),
        LExEnvView::LamCont { expr, .. } => lambda_free(*expr) && var_slots_fit(*expr),
        _ => false,
    }
}

/// The C function definition for one lifted lambda: `void lambda_<id>`
/// taking its parameter(s) as `object*`, whose single statement is the
/// lambda's compiled body.
pub open spec fn spec_lambda_decl(l: LExEnvView) -> CDeclView {
    match l {
        LExEnvView::Lam { arg, expr, id, .. } => CDeclView::Fun {
            name: lambda_name(id),
            typ: CTypeView::Void,
            args: seq![(arg, object_ptr())],
            body: seq![CStmtView::Expr(spec_codegen(*expr))],
        },
        LExEnvView::LamCont { arg, cont, expr, id, .. } => CDeclView::Fun {
            name: lambda_name(id),
            typ: CTypeView::Void,
            args: seq![(arg, object_ptr()), (cont, object_ptr())],
            body: seq![CStmtView::Expr(spec_codegen(*expr))],
        },
        _ => CDeclView::Macro(CExprView::LitStr(Seq::empty())),
    }
}

/// The `object*` type.
fn object_ptr_type() -> (r: CType)
    ensures
        r@ == object_ptr(),
{
    let inner = CType::Struct(String::from_str("object"));
    proof {
        assert(inner@ == CTypeView::Struct("object"@));
    }
    CType::Ptr(Box::new(inner))
}

/// One function definition per lifted lambda, in table order.
pub fn lambda_codegen(lams: &Vec<LExEnv>) -> (r: Vec<CDecl>)
    requires
        forall|i: int| 0 <= i < lams@.len() ==> is_lambda_def(#[trigger] lams@[i]@),
    ensures
        view_cdecls(r@) == lams@.map_values(|l: LExEnv| l@).map_values(
            |v: LExEnvView| spec_lambda_decl(v),
        ),
    decreases lams@.len(),
{
    let mut out: Vec<CDecl> = Vec::new();
    let ghost target = lams@.map_values(|l: LExEnv| l@).map_values(
        |v: LExEnvView| spec_lambda_decl(v),
    );
    let mut i: usize = 0;
    while i < lams.len()
        invariant
            i <= lams.len(),
            target == lams@.map_values(|l: LExEnv| l@).map_values(
                |v: LExEnvView| spec_lambda_decl(v),
            ),
            forall|k: int| 0 <= k < lams@.len() ==> is_lambda_def(#[trigger] lams@[k]@),
            out@.len() == i,
            forall|k: int| 0 <= k < i ==> view_cdecls(out@)[k] == target[k],
        decreases lams.len() - i,
    {
        let decl = match &lams[i] {
            LExEnv::Lam { arg, expr, env: _, id } => {
                let name = lambda_name_string(*id);
                let mut args: Vec<(String, CType)> = Vec::new();
                args.push((arg.clone(), object_ptr_type()));
                let mut body: Vec<CStmt> = Vec::new();
                body.push(CStmt::Expr(codegen(expr)));
                proof {
                    assert(args@.map_values(|p: (String, CType)| (p.0@, p.1@)) =~= seq![
                        (arg@, object_ptr()),
                    ]);
                    assert(body@[0]@ == CStmtView::Expr(spec_codegen((**expr)@)));
                    assert(body@.map_values(|s: CStmt| s@) =~= seq![
                        CStmtView::Expr(spec_codegen((**expr)@)),
                    ]);
                }
                CDecl::Fun { name, typ: CType::Void, args, body }
            },
            LExEnv::LamCont { arg, cont, expr, env: _, id } => {
                let name = lambda_name_string(*id);
                let mut args: Vec<(String, CType)> = Vec::new();
                args.push((arg.clone(), object_ptr_type()));
                args.push((cont.clone(), object_ptr_type()));
                let mut body: Vec<CStmt> = Vec::new();
                body.push(CStmt::Expr(codegen(expr)));
                proof {
                    assert(args@.map_values(|p: (String, CType)| (p.0@, p.1@)) =~= seq![
                        (arg@, object_ptr()),
                        (cont@, object_ptr()),
                    ]);
                    assert(body@[0]@ == CStmtView::Expr(spec_codegen((**expr)@)));
                    assert(body@.map_values(|s: CStmt| s@) =~= seq![
                        CStmtView::Expr(spec_codegen((**expr)@)),
                    ]);
                }
                CDecl::Fun { name, typ: CType::Void, args, body }
            },
            _ => unreached(),
        };
        proof {
            assert(decl@ == spec_lambda_decl(lams@[i as int]@));
        }
        out.push(decl);
        i = i + 1;
    }
    proof {
        assert(view_cdecls(out@) =~= target);
    }
    out
}

/// Every slot id of `env` fits a C integer literal.
pub open spec fn env_ids_fit(env: Seq<(Seq<char>, nat)>) -> bool {
    forall|j: int| 0 <= j < env.len() ==> (#[trigger] env[j].1) <= i64::MAX as nat
}

/// The env-table entry for one lambda environment: an `ENV_ENTRY` macro
/// invocation listing the slot ids in scope, in binding order.
pub open spec fn spec_env_table_elem(env: Seq<(Seq<char>, nat)>) -> CExprView {
    CExprView::MacroCall {
        name: "ENV_ENTRY"@,
        args: env.map_values(|p: (Seq<char>, nat)| CExprView::LitInt(p.1 as i64)),
    }
}

/// The `ENV_ENTRY` macro invocation for the environment of lambda `id`.
fn gen_env_table_elem(id: usize, env: &Env) -> (r: CExpr)
    requires
        env_ids_fit(env@),
    ensures
        r@ == spec_env_table_elem(env@),
{
    let mut args: Vec<CExpr> = Vec::new();
    let ghost target = env@.map_values(|p: (Seq<char>, nat)| CExprView::LitInt(p.1 as i64));
    let mut j: usize = 0;
    while j < env.0.len()
        invariant
            j <= env.0.len(),
            env_ids_fit(env@),
            target == env@.map_values(|p: (Seq<char>, nat)| CExprView::LitInt(p.1 as i64)),
            args@.len() == j,
            forall|k: int| 0 <= k < j ==> view_cexprs(args@)[k] == target[k],
            view_cexprs(args@).len() == args@.len(),
        decreases env.0.len() - j,
    {
        let ghost prev = args@;
        let slot = env.0[j].1;
        args.push(CExpr::LitInt(slot as i64));
        j = j + 1;
        proof {
            lemma_view_cexprs(args@);
            assert(env@[j - 1].1 == env.0@[j - 1].1 as nat);
            assert(args@[j - 1]@ == CExprView::LitInt(env.0@[j - 1].1 as i64));
            assert forall|k: int| 0 <= k < j implies view_cexprs(args@)[k] == target[k] by {
                if k < j - 1 {
                    lemma_view_cexprs(prev);
                    assert(args@[k] == prev[k]);
                }
            }
        }
    }
    proof {
        lemma_view_cexprs(args@);
        assert(view_cexprs(args@) =~= target);
    }
    CExpr::MacroCall { name: String::from_str("ENV_ENTRY"), args }
}

/// The env-table entries a sequence of `(id, env)` pairs denotes.
pub open spec fn spec_env_decls(envs: Seq<(usize, Env)>) -> Seq<CDeclView> {
    envs.map_values(|p: (usize, Env)| CDeclView::Macro(spec_env_table_elem(p.1@)))
}

/// The environment-descriptor table: one `ENV_ENTRY` declaration per
/// lambda environment, builtin environments before program environments.
pub fn gen_env_ids(builtin_envs: &Vec<(usize, Env)>, program_envs: &Vec<(usize, Env)>) -> (r:
    Vec<CDecl>)
    requires
        forall|k: int|
            0 <= k < builtin_envs@.len() ==> env_ids_fit(#[trigger] builtin_envs@[k].1@),
        forall|k: int|
            0 <= k < program_envs@.len() ==> env_ids_fit(#[trigger] program_envs@[k].1@),
    ensures
        view_cdecls(r@) == spec_env_decls(builtin_envs@) + spec_env_decls(program_envs@),
{
    let mut out: Vec<CDecl> = Vec::new();
    let ghost target = spec_env_decls(builtin_envs@) + spec_env_decls(program_envs@);
    let mut i: usize = 0;
    while i < builtin_envs.len()
        invariant
            i <= builtin_envs.len(),
            target == spec_env_decls(builtin_envs@) + spec_env_decls(program_envs@),
            forall|k: int|
                0 <= k < builtin_envs@.len() ==> env_ids_fit(#[trigger] builtin_envs@[k].1@),
            forall|k: int|
                0 <= k < program_envs@.len() ==> env_ids_fit(#[trigger] program_envs@[k].1@),
            out@.len() == i,
            forall|k: int| 0 <= k < i ==> view_cdecls(out@)[k] == target[k],
        decreases builtin_envs.len() - i,
    {
        let elem = gen_env_table_elem(builtin_envs[i].0, &builtin_envs[i].1);
        out.push(CDecl::Macro(elem));
        i = i + 1;
    }
    let mut j: usize = 0;
    while j < program_envs.len()
        invariant
            j <= program_envs.len(),
            target == spec_env_decls(builtin_envs@) + spec_env_decls(program_envs@),
            forall|k: int|
                0 <= k < program_envs@.len() ==> env_ids_fit(#[trigger] program_envs@[k].1@),
            out@.len() == builtin_envs@.len() + j,
            forall|k: int| 0 <= k < out@.len() ==> view_cdecls(out@)[k] == target[k],
        decreases program_envs.len() - j,
    {
        let elem = gen_env_table_elem(program_envs[j].0, &program_envs[j].1);
        out.push(CDecl::Macro(elem));
        j = j + 1;
    }
    proof {
        assert(view_cdecls(out@) =~= target);
    }
    out
}

/// Membership in a concatenation.
pub proof fn lemma_concat_contains(a: Seq<nat>, b: Seq<nat>, j: nat)
    ensures
        (a + b).contains(j) <==> (a.contains(j) || b.contains(j)),
{
    if a.contains(j) {
        let w = choose|w: int| 0 <= w < a.len() && a[w] == j;
        assert((a + b)[w] == j);
    }
    if b.contains(j) {
        let w = choose|w: int| 0 <= w < b.len() && b[w] == j;
        assert((a + b)[a.len() + w] == j);
    }
    if (a + b).contains(j) {
        let w = choose|w: int| 0 <= w < (a + b).len() && (a + b)[w] == j;
        if w < a.len() {
            assert(a[w] == j);
        } else {
            assert(b[w - a.len()] == j);
        }
    }
}

} // verus!
