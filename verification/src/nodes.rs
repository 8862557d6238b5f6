//! The intermediate representation: the surface/transformed expression tree
//! `LExpr`, lexical environments `Env`, and the environment-annotated tree
//! `LExEnv`, together with their mathematical models and the grammar
//! predicates that describe the IR between pipeline stages.

use vstd::prelude::*;
use vstd::string::StringExecFns;

use crate::numerals::{dec_digits, i64_to_string, int_code, u64_to_string};

verus! {

/// A primitive literal value.
#[derive(Clone, Copy, Debug, PartialEq, Eq, Structural)]
pub enum ExprLit {
    /// The void object.
    Void,
    /// An integer.
    Int(i64),
}

/// Arity tag carried by a builtin reference.
#[derive(Clone, Copy, Debug, PartialEq, Eq, Structural)]
pub enum LamType {
    OneArg,
    TwoArg,
}

/// The expression IR. The surface language uses only `Lam`, `App`, `Var`,
/// `Lit` and `BuiltinIdent`; the remaining variants are introduced by the
/// normalization and CPS passes.
#[derive(Debug, PartialEq)]
pub enum LExpr {
    /// Raw n-ary lambda: parameters and a multi-expression body.
    Lam(Vec<String>, Vec<LExpr>),
    /// Raw n-ary application: operator and operands.
    App(Box<LExpr>, Vec<LExpr>),
    /// A variable occurrence.
    Var(String),
    /// A literal.
    Lit(ExprLit),
    /// A reference to a runtime builtin, with its arity.
    BuiltinIdent(String, LamType),
    /// Unary lambda whose body is still a sequence of expressions.
    LamOne(String, Vec<LExpr>),
    /// Unary application.
    AppOne(Box<LExpr>, Box<LExpr>),
    /// Unary lambda with a single-expression body.
    LamOneOne(String, Box<LExpr>),
    /// CPS application: operator, operand, continuation.
    AppOneCont(Box<LExpr>, Box<LExpr>, Box<LExpr>),
    /// CPS lambda: value parameter, continuation parameter, body.
    LamOneOneCont(String, String, Box<LExpr>),
}

/// Mathematical model of an `LExpr` tree.
pub enum LExprView {
    Lam(Seq<Seq<char>>, Seq<LExprView>),
    App(Box<LExprView>, Seq<LExprView>),
    Var(Seq<char>),
    Lit(ExprLit),
    BuiltinIdent(Seq<char>, LamType),
    LamOne(Seq<char>, Seq<LExprView>),
    AppOne(Box<LExprView>, Box<LExprView>),
    LamOneOne(Seq<char>, Box<LExprView>),
    AppOneCont(Box<LExprView>, Box<LExprView>, Box<LExprView>),
    LamOneOneCont(Seq<char>, Seq<char>, Box<LExprView>),
}

/// The views of a sequence of names.
pub open spec fn view_names(s: Seq<String>) -> Seq<Seq<char>> {
    s.map_values(|n: String| n@)
}

/// The views of a sequence of expressions.
pub open spec fn view_exprs(s: Seq<LExpr>) -> Seq<LExprView>
    decreases s,
{
    if s.len() == 0 {
        Seq::empty()
    } else {
        seq![s[0]@] + view_exprs(s.subrange(1, s.len() as int))
    }
}

/// `view_exprs` agrees with elementwise views.
pub proof fn lemma_view_exprs(s: Seq<LExpr>)
    ensures
        view_exprs(s).len() == s.len(),
        forall|k: int| 0 <= k < s.len() ==> view_exprs(s)[k] == s[k]@,
    decreases s,
{
    if s.len() > 0 {
        let tail = s.subrange(1, s.len() as int);
        lemma_view_exprs(tail);
        assert(view_exprs(s) == seq![s[0]@] + view_exprs(tail));
        assert forall|k: int| 0 <= k < s.len() implies view_exprs(s)[k] == s[k]@ by {
            if k == 0 {
                assert(view_exprs(s)[0] == s[0]@);
            } else {
                assert(view_exprs(s)[k] == view_exprs(tail)[k - 1]);
                assert(tail[k - 1] == s[k]);
            }
        }
    }
}

/// Splits `view_exprs` of a non-empty sequence into its head and tail.
pub proof fn lemma_view_exprs_decompose(s: Seq<LExpr>)
    requires
        s.len() > 0,
    ensures
        view_exprs(s).len() == s.len(),
        view_exprs(s)[0] == s[0]@,
        view_exprs(s) == seq![s[0]@] + view_exprs(s.subrange(1, s.len() as int)),
        view_exprs(s).subrange(1, s.len() as int) == view_exprs(s.subrange(1, s.len() as int)),
{
    let tail = s.subrange(1, s.len() as int);
    lemma_view_exprs(s);
    lemma_view_exprs(tail);
    assert(view_exprs(s) == seq![s[0]@] + view_exprs(tail));
    assert(view_exprs(s).subrange(1, s.len() as int) =~= view_exprs(tail));
}

impl View for LExpr {
    type V = LExprView;

    open spec fn view(&self) -> LExprView
        decreases self,
    {
        match self {
            LExpr::Lam(args, body) => LExprView::Lam(view_names(args@), view_exprs(body@)),
            LExpr::App(f, operands) => LExprView::App(Box::new((**f)@), view_exprs(operands@)),
            LExpr::Var(name) => LExprView::Var(name@),
            LExpr::Lit(l) => LExprView::Lit(*l),
            LExpr::BuiltinIdent(name, arity) => LExprView::BuiltinIdent(name@, *arity),
            LExpr::LamOne(arg, body) => LExprView::LamOne(arg@, view_exprs(body@)),
            LExpr::AppOne(f, a) => LExprView::AppOne(Box::new((**f)@), Box::new((**a)@)),
            LExpr::LamOneOne(arg, b) => LExprView::LamOneOne(arg@, Box::new((**b)@)),
            LExpr::AppOneCont(f, a, k) => LExprView::AppOneCont(
                Box::new((**f)@),
                Box::new((**a)@),
                Box::new((**k)@),
            ),
            LExpr::LamOneOneCont(arg, cont, b) => LExprView::LamOneOneCont(
                arg@,
                cont@,
                Box::new((**b)@),
            ),
        }
    }
}

// ---------------------------------------------------------------------------
// S-expression rendering (debugging aid)
// ---------------------------------------------------------------------------

/// Appends the space-separated parameter names to `s`.
fn append_names(s: &mut String, args: &Vec<String>)
    ensures
        final(s)@ == old(s)@ + join_names_code(view_names(args@)),
{
    proof {
        assert(old(s)@ + join_names_code(view_names(args@).subrange(0, 0)) =~= old(s)@);
    }
    let mut i: usize = 0;
    while i < args.len()
        invariant
            i <= args.len(),
            s@ == old(s)@ + join_names_code(view_names(args@).subrange(0, i as int)),
        decreases args.len() - i,
    {
        if i > 0 {
            s.append(" ");
        }
        s.append(args[i].as_str());
        i = i + 1;
        proof {
            let vn = view_names(args@);
            let cur = vn.subrange(0, i as int);
            assert(cur.subrange(0, cur.len() - 1) =~= vn.subrange(0, i - 1));
            assert(cur[cur.len() - 1] == args@[i - 1]@);
            assert(s@ =~= old(s)@ + join_names_code(cur));
        }
    }
    proof {
        assert(view_names(args@).subrange(0, args@.len() as int) =~= view_names(args@));
    }
}

/// Appends each expression's text to `s`, one space before each.
fn append_codes_spaced(s: &mut String, body: &Vec<LExpr>)
    ensures
        final(s)@ == old(s)@ + codes_spaced(view_exprs(body@)),
    decreases body@,
{
    proof {
        lemma_view_exprs(body@);
        assert(old(s)@ + codes_spaced(view_exprs(body@).subrange(0, 0)) =~= old(s)@);
    }
    let mut j: usize = 0;
    while j < body.len()
        invariant
            j <= body.len(),
            view_exprs(body@).len() == body@.len(),
            s@ == old(s)@ + codes_spaced(view_exprs(body@).subrange(0, j as int)),
        decreases body@.len() - j,
    {
        s.append(" ");
        let sub = body[j].to_code_string();
        s.append(sub.as_str());
        j = j + 1;
        proof {
            lemma_view_exprs(body@);
            let ve = view_exprs(body@);
            let cur = ve.subrange(0, j as int);
            assert(cur.subrange(0, cur.len() - 1) =~= ve.subrange(0, j - 1));
            assert(cur[cur.len() - 1] == body@[j - 1]@);
            assert(s@ =~= old(s)@ + codes_spaced(cur));
        }
    }
    proof {
        assert(view_exprs(body@).subrange(0, body@.len() as int) =~= view_exprs(body@));
    }
}

impl LExpr {
    /// The s-expression text of this expression, as the surface language
    /// would write it (a debugging aid).
    pub fn to_code_string(&self) -> (r: String)
        ensures
            r@ == code_of(self@),
        decreases self,
    {
        match self {
            LExpr::Lam(args, body) => {
                let mut s = String::from_str("(lambda (");
                append_names(&mut s, args);
                s.append(")");
                append_codes_spaced(&mut s, body);
                s.append(")");
                proof {
                    assert(s@ =~= code_of(self@));
                }
                s
            },
            LExpr::App(f, operands) => {
                let mut s = String::from_str("(");
                let fs = f.to_code_string();
                s.append(fs.as_str());
                append_codes_spaced(&mut s, operands);
                s.append(")");
                proof {
                    assert(s@ =~= code_of(self@));
                }
                s
            },
            LExpr::Var(name) => name.clone(),
            LExpr::Lit(l) => match l {
                ExprLit::Void => String::from_str("void"),
                ExprLit::Int(i) => i64_to_string(*i),
            },
            LExpr::BuiltinIdent(name, _) => name.clone(),
            LExpr::LamOne(arg, body) => {
                let mut s = String::from_str("(lambda (");
                s.append(arg.as_str());
                s.append(")");
                append_codes_spaced(&mut s, body);
                s.append(")");
                proof {
                    assert(s@ =~= code_of(self@));
                }
                s
            },
            LExpr::AppOne(f, a) => {
                let mut s = String::from_str("(");
                let fs = f.to_code_string();
                s.append(fs.as_str());
                s.append(" ");
                let rs = a.to_code_string();
                s.append(rs.as_str());
                s.append(")");
                proof {
                    assert(s@ =~= code_of(self@));
                }
                s
            },
            LExpr::LamOneOne(arg, b) => {
                let mut s = String::from_str("(lambda (");
                s.append(arg.as_str());
                s.append(") ");
                let bs = b.to_code_string();
                s.append(bs.as_str());
                s.append(")");
                proof {
                    assert(s@ =~= code_of(self@));
                }
                s
            },
            LExpr::AppOneCont(f, a, k) => {
                let mut s = String::from_str("(");
                let fs = f.to_code_string();
                s.append(fs.as_str());
                s.append(" ");
                let rs = a.to_code_string();
                s.append(rs.as_str());
                s.append(" ");
                let ks = k.to_code_string();
                s.append(ks.as_str());
                s.append(")");
                proof {
                    assert(s@ =~= code_of(self@));
                }
                s
            },
            LExpr::LamOneOneCont(arg, cont, b) => {
                let mut s = String::from_str("(lambda (");
                s.append(arg.as_str());
                s.append(" ");
                s.append(cont.as_str());
                s.append(") ");
                let bs = b.to_code_string();
                s.append(bs.as_str());
                s.append(")");
                proof {
                    assert(s@ =~= code_of(self@));
                }
                s
            },
        }
    }
}

/// The s-expression text of an expression.
pub open spec fn code_of(e: LExprView) -> Seq<char>
    decreases e,
{
    match e {
        LExprView::Lam(args, body) => "(lambda ("@ + join_names_code(args) + ")"@
            + codes_spaced(body) + ")"@,
        LExprView::App(f, operands) => "("@ + code_of(*f) + codes_spaced(operands) + ")"@,
        LExprView::Var(name) => name,
        LExprView::Lit(ExprLit::Void) => "void"@,
        LExprView::Lit(ExprLit::Int(i)) => int_code(i as int),
        LExprView::BuiltinIdent(name, _) => name,
        LExprView::LamOne(arg, body) => "(lambda ("@ + arg + ")"@ + codes_spaced(body) + ")"@,
        LExprView::AppOne(f, a) => "("@ + code_of(*f) + " "@ + code_of(*a) + ")"@,
        LExprView::LamOneOne(arg, b) => "(lambda ("@ + arg + ") "@ + code_of(*b) + ")"@,
        LExprView::AppOneCont(f, a, k) => "("@ + code_of(*f) + " "@ + code_of(*a) + " "@
            + code_of(*k) + ")"@,
        LExprView::LamOneOneCont(arg, cont, b) => "(lambda ("@ + arg + " "@ + cont + ") "@
            + code_of(*b) + ")"@,
    }
}

/// Space-separated parameter names.
pub open spec fn join_names_code(names: Seq<Seq<char>>) -> Seq<char>
    decreases names.len(),
{
    if names.len() == 0 {
        Seq::empty()
    } else if names.len() == 1 {
        names[0]
    } else {
        join_names_code(names.subrange(0, names.len() - 1)) + " "@ + names[names.len() - 1]
    }
}

/// One space before each expression's text (lambda and application tails).
pub open spec fn codes_spaced(es: Seq<LExprView>) -> Seq<char>
    decreases es,
{
    if es.len() == 0 {
        Seq::empty()
    } else {
        codes_spaced(es.subrange(0, es.len() - 1)) + " "@ + code_of(es[es.len() - 1])
    }
}

/// The number of nodes of an expression tree, bounding how many fresh
/// names any single pass can draw from the shared counter.
pub open spec fn expr_size(e: LExprView) -> nat
    decreases e,
{
    match e {
        LExprView::Lam(_, body) => 1 + seq_size(body),
        LExprView::App(f, operands) => 1 + expr_size(*f) + seq_size(operands),
        LExprView::Var(_) => 1,
        LExprView::Lit(_) => 1,
        LExprView::BuiltinIdent(_, _) => 1,
        LExprView::LamOne(_, body) => 1 + seq_size(body),
        LExprView::AppOne(f, a) => 1 + expr_size(*f) + expr_size(*a),
        LExprView::LamOneOne(_, b) => 1 + expr_size(*b),
        LExprView::AppOneCont(f, a, k) => 1 + expr_size(*f) + expr_size(*a) + expr_size(*k),
        LExprView::LamOneOneCont(_, _, b) => 1 + expr_size(*b),
    }
}

/// The total node count of a sequence of expressions.
pub open spec fn seq_size(es: Seq<LExprView>) -> nat
    decreases es,
{
    if es.len() == 0 {
        0
    } else {
        expr_size(es[0]) + seq_size(es.subrange(1, es.len() as int))
    }
}

/// `seq_size` splits off the last element.
pub proof fn lemma_seq_size_drop_last(es: Seq<LExprView>)
    requires
        es.len() > 0,
    ensures
        seq_size(es) == seq_size(es.subrange(0, es.len() - 1)) + expr_size(es[es.len() - 1]),
    decreases es,
{
    if es.len() == 1 {
        assert(es.subrange(0, 0) =~= Seq::<LExprView>::empty());
        assert(es.subrange(1, 1) =~= Seq::<LExprView>::empty());
    } else {
        let tail = es.subrange(1, es.len() as int);
        lemma_seq_size_drop_last(tail);
        let front = es.subrange(0, es.len() - 1);
        assert(front[0] == es[0]);
        assert(front.subrange(1, front.len() as int) =~= tail.subrange(0, tail.len() - 1));
        assert(tail[tail.len() - 1] == es[es.len() - 1]);
    }
}

// ---------------------------------------------------------------------------
// Stage grammars
// ---------------------------------------------------------------------------

/// Surface IR: only `Lam`, `App`, `Var`, `Lit` and `BuiltinIdent` appear.
pub open spec fn is_surface(e: LExprView) -> bool
    decreases e,
{
    match e {
        LExprView::Lam(_, body) => all_surface(body),
        LExprView::App(f, operands) => is_surface(*f) && all_surface(operands),
        LExprView::Var(_) => true,
        LExprView::Lit(_) => true,
        LExprView::BuiltinIdent(_, _) => true,
        _ => false,
    }
}

/// Every expression of the sequence is surface IR.
pub open spec fn all_surface(es: Seq<LExprView>) -> bool
    decreases es,
{
    es.len() == 0 || (is_surface(es[0]) && all_surface(es.subrange(1, es.len() as int)))
}

/// Post-arity-normalization IR: only `LamOne`, `AppOne` and leaves appear.
pub open spec fn is_arity_normal(e: LExprView) -> bool
    decreases e,
{
    match e {
        LExprView::LamOne(_, body) => all_arity_normal(body),
        LExprView::AppOne(f, a) => is_arity_normal(*f) && is_arity_normal(*a),
        LExprView::Var(_) => true,
        LExprView::Lit(_) => true,
        LExprView::BuiltinIdent(_, _) => true,
        _ => false,
    }
}

/// Every expression of the sequence is arity-normal.
pub open spec fn all_arity_normal(es: Seq<LExprView>) -> bool
    decreases es,
{
    es.len() == 0 || (is_arity_normal(es[0]) && all_arity_normal(
        es.subrange(1, es.len() as int),
    ))
}

/// `all_arity_normal` is elementwise arity-normality.
pub proof fn lemma_all_arity_normal(es: Seq<LExprView>)
    ensures
        all_arity_normal(es) <==> (forall|i: int|
            0 <= i < es.len() ==> is_arity_normal(#[trigger] es[i])),
    decreases es,
{
    if es.len() > 0 {
        let tail = es.subrange(1, es.len() as int);
        lemma_all_arity_normal(tail);
        if all_arity_normal(es) {
            assert forall|i: int| 0 <= i < es.len() implies is_arity_normal(#[trigger] es[i]) by {
                if i > 0 {
                    assert(tail[i - 1] == es[i]);
                    assert(is_arity_normal(tail[i - 1]));
                }
            }
        }
        if forall|i: int| 0 <= i < es.len() ==> is_arity_normal(#[trigger] es[i]) {
            assert forall|i: int| 0 <= i < tail.len() implies is_arity_normal(
                #[trigger] tail[i],
            ) by {
                assert(tail[i] == es[i + 1]);
            }
        }
    }
}

/// Post-body-sequencing IR: every lambda is `LamOneOne` (single-expression
/// body), applications are `AppOne`, and leaves pass through.
pub open spec fn is_seq_normal(e: LExprView) -> bool
    decreases e,
{
    match e {
        LExprView::LamOneOne(_, b) => is_seq_normal(*b),
        LExprView::AppOne(f, a) => is_seq_normal(*f) && is_seq_normal(*a),
        LExprView::Var(_) => true,
        LExprView::Lit(_) => true,
        LExprView::BuiltinIdent(_, _) => true,
        _ => false,
    }
}

/// CPS value: an atom, or a CPS lambda taking a value and a continuation.
pub open spec fn is_cps_value(e: LExprView) -> bool
    decreases e,
{
    match e {
        LExprView::Var(_) => true,
        LExprView::Lit(_) => true,
        LExprView::BuiltinIdent(_, _) => true,
        LExprView::LamOneOneCont(_, _, b) => is_cps_body(*b),
        _ => false,
    }
}

/// CPS continuation: a variable, or an administrative one-argument lambda
/// whose body is again CPS code.
pub open spec fn is_cps_cont(e: LExprView) -> bool
    decreases e, 1int,
{
    match e {
        LExprView::Var(_) => true,
        LExprView::LamOneOne(_, b) => is_cps_body(*b),
        _ => false,
    }
}

/// CPS body: either a continuation applied to a value (`AppOne` survives
/// only in this role) or a full CPS call `AppOneCont(f, a, k)`.
pub open spec fn is_cps_body(e: LExprView) -> bool
    decreases e, 2int,
{
    match e {
        LExprView::AppOne(k, v) => is_cps_cont(*k) && is_cps_value(*v),
        LExprView::AppOneCont(f, a, k) => is_cps_value(*f) && is_cps_value(*a) && is_cps_cont(*k),
        _ => false,
    }
}

/// The CPS converter's input grammar: post-body-sequencing IR, in which a
/// lambda that already carries its continuation parameter may also occur
/// — its body must already be CPS code, and the converter passes it
/// through unchanged.
pub open spec fn is_cps_input(e: LExprView) -> bool
    decreases e, 3int,
{
    match e {
        LExprView::LamOneOne(_, b) => is_cps_input(*b),
        LExprView::AppOne(f, a) => is_cps_input(*f) && is_cps_input(*a),
        LExprView::Var(_) => true,
        LExprView::Lit(_) => true,
        LExprView::BuiltinIdent(_, _) => true,
        LExprView::LamOneOneCont(_, _, b) => is_cps_body(*b),
        _ => false,
    }
}

/// Everything the body sequencer emits is acceptable CPS-converter input.
pub proof fn lemma_seq_normal_is_cps_input(e: LExprView)
    requires
        is_seq_normal(e),
    ensures
        is_cps_input(e),
    decreases e,
{
    match e {
        LExprView::LamOneOne(_, b) => lemma_seq_normal_is_cps_input(*b),
        LExprView::AppOne(f, a) => {
            lemma_seq_normal_is_cps_input(*f);
            lemma_seq_normal_is_cps_input(*a);
        },
        _ => {},
    }
}

/// No raw (pre-normalization) node remains: the input grammar of the
/// environment resolver.
pub open spec fn no_raw_nodes(e: LExprView) -> bool
    decreases e,
{
    match e {
        LExprView::Lam(_, _) => false,
        LExprView::App(_, _) => false,
        LExprView::LamOne(_, _) => false,
        LExprView::Var(_) => true,
        LExprView::Lit(_) => true,
        LExprView::BuiltinIdent(_, _) => true,
        LExprView::AppOne(f, a) => no_raw_nodes(*f) && no_raw_nodes(*a),
        LExprView::LamOneOne(_, b) => no_raw_nodes(*b),
        LExprView::AppOneCont(f, a, k) => no_raw_nodes(*f) && no_raw_nodes(*a) && no_raw_nodes(*k),
        LExprView::LamOneOneCont(_, _, b) => no_raw_nodes(*b),
    }
}

// ---------------------------------------------------------------------------
// Environments
// ---------------------------------------------------------------------------

/// A lexical-scope snapshot: bindings from names to globally unique slot
/// ids, oldest first. Extension shadows: rebinding a name drops its older
/// pair and appends the new one, so keys stay distinct and lookups may scan
/// from the newest binding backwards. Equality is by content: two
/// environments are equal exactly when they bind the same names to the
/// same slot ids.
#[derive(Clone, Debug)]
pub struct Env(pub Vec<(String, usize)>);

/// The views of a sequence of bindings.
pub open spec fn view_bindings(s: Seq<(String, usize)>) -> Seq<(Seq<char>, nat)> {
    s.map_values(|p: (String, usize)| (p.0@, p.1 as nat))
}

impl View for Env {
    type V = Seq<(Seq<char>, nat)>;

    open spec fn view(&self) -> Seq<(Seq<char>, nat)> {
        view_bindings(self.0@)
    }
}

/// Equality of environments by content: the same names bound to the same
/// slot ids, whatever the order or history of extension.
pub open spec fn env_equal(a: Seq<(Seq<char>, nat)>, b: Seq<(Seq<char>, nat)>) -> bool {
    forall|name: Seq<char>| #[trigger] env_lookup(a, name) == env_lookup(b, name)
}

/// A name looks up to something exactly when some binding carries it.
pub proof fn lemma_env_lookup_present(env: Seq<(Seq<char>, nat)>, name: Seq<char>)
    ensures
        env_lookup(env, name).is_some() <==> exists|i: int|
            0 <= i < env.len() && (#[trigger] env[i]).0 == name,
    decreases env.len(),
{
    if env.len() > 0 {
        let front = env.subrange(0, env.len() - 1);
        lemma_env_lookup_present(front, name);
        if env[env.len() - 1].0 == name {
            assert((env[env.len() - 1]).0 == name);
        } else {
            if env_lookup(env, name).is_some() {
                let w = choose|w: int| 0 <= w < front.len() && (#[trigger] front[w]).0 == name;
                assert((env[w]).0 == name);
            }
            if exists|i: int| 0 <= i < env.len() && (#[trigger] env[i]).0 == name {
                let w = choose|w: int| 0 <= w < env.len() && (#[trigger] env[w]).0 == name;
                assert(w < env.len() - 1);
                assert((front[w]).0 == name);
            }
        }
    }
}

/// Looks a name up among bindings, newest binding first.
pub open spec fn env_lookup(env: Seq<(Seq<char>, nat)>, name: Seq<char>) -> Option<nat>
    decreases env.len(),
{
    if env.len() == 0 {
        None
    } else if env[env.len() - 1].0 == name {
        Some(env[env.len() - 1].1)
    } else {
        env_lookup(env.subrange(0, env.len() - 1), name)
    }
}

/// The bindings with every pair for `name` removed.
pub open spec fn remove_key(
    env: Seq<(Seq<char>, nat)>,
    name: Seq<char>,
) -> Seq<(Seq<char>, nat)>
    decreases env.len(),
{
    if env.len() == 0 {
        Seq::empty()
    } else if env[env.len() - 1].0 == name {
        remove_key(env.subrange(0, env.len() - 1), name)
    } else {
        remove_key(env.subrange(0, env.len() - 1), name).push(env[env.len() - 1])
    }
}

/// One extension step: the new binding shadows any older one of that name.
pub open spec fn env_set(
    env: Seq<(Seq<char>, nat)>,
    name: Seq<char>,
    id: nat,
) -> Seq<(Seq<char>, nat)> {
    remove_key(env, name).push((name, id))
}

/// Extension by a sequence of bindings, left to right.
pub open spec fn env_extend(
    env: Seq<(Seq<char>, nat)>,
    vals: Seq<(Seq<char>, nat)>,
) -> Seq<(Seq<char>, nat)>
    decreases vals.len(),
{
    if vals.len() == 0 {
        env
    } else {
        env_extend(env_set(env, vals[0].0, vals[0].1), vals.subrange(1, vals.len() as int))
    }
}

/// Removes every binding of `name`, keeping the order of the rest.
fn remove_binding(bindings: &mut Vec<(String, usize)>, name: &String)
    ensures
        view_bindings(final(bindings)@) == remove_key(view_bindings(old(bindings)@), name@),
{
    let mut out: Vec<(String, usize)> = Vec::new();
    let mut i: usize = 0;
    while i < bindings.len()
        invariant
            i <= bindings.len(),
            view_bindings(out@) == remove_key(view_bindings(bindings@.subrange(0, i as int)), name@),
        decreases bindings.len() - i,
    {
        let keep = !(bindings[i].0 == *name);
        if keep {
            out.push((bindings[i].0.clone(), bindings[i].1));
        }
        i = i + 1;
        proof {
            let pre = view_bindings(bindings@.subrange(0, i - 1));
            let cur = view_bindings(bindings@.subrange(0, i as int));
            assert(cur.subrange(0, cur.len() - 1) =~= pre);
            assert(cur[cur.len() - 1] == (bindings@[i - 1].0@, bindings@[i - 1].1 as nat));
            if keep {
                assert(view_bindings(out@) =~= remove_key(cur, name@));
            } else {
                assert(view_bindings(out@) =~= remove_key(cur, name@));
            }
        }
    }
    proof {
        assert(bindings@.subrange(0, bindings@.len() as int) =~= bindings@);
    }
    *bindings = out;
}

impl Env {
    /// A new environment extending `parent` with `vals`; later pairs of
    /// `vals` shadow earlier ones and the parent's.
    pub fn new(parent: &Env, vals: Vec<(String, usize)>) -> (r: Env)
        ensures
            r@ == env_extend(parent@, view_bindings(vals@)),
    {
        let mut bindings: Vec<(String, usize)> = Vec::new();
        let mut i: usize = 0;
        while i < parent.0.len()
            invariant
                i <= parent.0.len(),
                view_bindings(bindings@) == view_bindings(parent.0@).subrange(0, i as int),
            decreases parent.0.len() - i,
        {
            let cloned: String = parent.0[i].0.clone();
            let slot: usize = parent.0[i].1;
            let ghost prev = bindings@;
            bindings.push((cloned, slot));
            i = i + 1;
            proof {
                let cur = view_bindings(parent.0@).subrange(0, i as int);
                assert(view_bindings(prev).len() == prev.len());
                assert(prev.len() == i - 1);
                assert forall|k: int| 0 <= k < i as int implies view_bindings(bindings@)[k]
                    == cur[k] by {
                    assert(cur[k] == (parent.0@[k].0@, parent.0@[k].1 as nat));
                    if k < i - 1 {
                        assert(bindings@[k] == prev[k]);
                        assert(view_bindings(prev)[k] == view_bindings(parent.0@).subrange(
                            0,
                            i - 1,
                        )[k]);
                    } else {
                        assert(bindings@[k].0@ == parent.0@[k].0@);
                        assert(bindings@[k].1 == parent.0@[k].1);
                    }
                };
                assert(view_bindings(bindings@) =~= cur);
            }
        }
        proof {
            assert(view_bindings(parent.0@).subrange(0, parent.0@.len() as int) =~= parent@);
        }
        let ghost all_vals = view_bindings(vals@);
        proof {
            assert(all_vals.subrange(0, all_vals.len() as int) =~= all_vals);
        }
        let mut j: usize = 0;
        while j < vals.len()
            invariant
                j <= vals.len(),
                all_vals == view_bindings(vals@),
                env_extend(view_bindings(bindings@), all_vals.subrange(j as int, all_vals.len() as int))
                    == env_extend(parent@, all_vals),
            decreases vals.len() - j,
        {
            let ghost before = view_bindings(bindings@);
            let name = vals[j].0.clone();
            let id = vals[j].1;
            remove_binding(&mut bindings, &name);
            bindings.push((name, id));
            j = j + 1;
            proof {
                assert(view_bindings(bindings@) =~= env_set(
                    before,
                    vals@[j - 1].0@,
                    vals@[j - 1].1 as nat,
                ));
                let rest_pre = all_vals.subrange(j - 1, all_vals.len() as int);
                let rest_post = all_vals.subrange(j as int, all_vals.len() as int);
                assert(rest_pre[0] == all_vals[j - 1]);
                assert(rest_pre.subrange(1, rest_pre.len() as int) =~= rest_post);
            }
        }
        proof {
            assert(all_vals.subrange(vals@.len() as int, all_vals.len() as int) =~= Seq::<(
                Seq<char>,
                nat,
            )>::empty());
        }
        Env(bindings)
    }

    /// The empty environment.
    pub fn empty() -> (r: Env)
        ensures
            r@ == Seq::<(Seq<char>, nat)>::empty(),
    {
        let r = Env(Vec::new());
        proof {
            assert(r@ =~= Seq::<(Seq<char>, nat)>::empty());
        }
        r
    }

    /// The slot id bound to `key`, if any; the newest binding wins.
    pub fn get(&self, key: &String) -> (r: Option<usize>)
        ensures
            match r {
                Some(v) => env_lookup(self@, key@) == Some(v as nat),
                None => env_lookup(self@, key@).is_none(),
            },
    {
        let mut i: usize = self.0.len();
        proof {
            assert(self@.subrange(0, self@.len() as int) =~= self@);
        }
        while i > 0
            invariant
                i <= self.0.len(),
                env_lookup(self@, key@) == env_lookup(self@.subrange(0, i as int), key@),
            decreases i,
        {
            i = i - 1;
            if self.0[i].0 == *key {
                proof {
                    let cur = self@.subrange(0, i + 1);
                    assert(cur[cur.len() - 1] == (self.0@[i as int].0@, self.0@[i as int].1 as nat));
                }
                return Some(self.0[i].1);
            }
            proof {
                let cur = self@.subrange(0, i + 1);
                assert(cur[cur.len() - 1] == (self.0@[i as int].0@, self.0@[i as int].1 as nat));
                assert(cur.subrange(0, cur.len() - 1) =~= self@.subrange(0, i as int));
            }
        }
        proof {
            assert(self@.subrange(0, 0) =~= Seq::<(Seq<char>, nat)>::empty());
        }
        None
    }
}

impl PartialEq for Env {
    /// Environments compare by content: both directions of inclusion of
    /// their lookup mappings.
    fn eq(&self, other: &Env) -> (r: bool) {
        let mut i: usize = 0;
        while i < self.0.len()
            invariant
                i <= self.0.len(),
                forall|k: int|
                    0 <= k < i ==> #[trigger] env_lookup(self@, self.0@[k].0@) == env_lookup(
                        other@,
                        self.0@[k].0@,
                    ),
            decreases self.0.len() - i,
        {
            let mine = self.get(&self.0[i].0);
            let theirs = other.get(&self.0[i].0);
            let same = match (mine, theirs) {
                (Some(a), Some(b)) => a == b,
                (None, None) => true,
                _ => false,
            };
            if !same {
                proof {
                    let key = self.0@[i as int].0@;
                    assert(env_lookup(self@, key) != env_lookup(other@, key));
                }
                return false;
            }
            i = i + 1;
        }
        let mut j: usize = 0;
        while j < other.0.len()
            invariant
                j <= other.0.len(),
                forall|k: int|
                    0 <= k < self.0@.len() ==> #[trigger] env_lookup(self@, self.0@[k].0@)
                        == env_lookup(other@, self.0@[k].0@),
                forall|k: int|
                    0 <= k < j ==> #[trigger] env_lookup(self@, other.0@[k].0@) == env_lookup(
                        other@,
                        other.0@[k].0@,
                    ),
            decreases other.0.len() - j,
        {
            let mine = self.get(&other.0[j].0);
            let theirs = other.get(&other.0[j].0);
            let same = match (mine, theirs) {
                (Some(a), Some(b)) => a == b,
                (None, None) => true,
                _ => false,
            };
            if !same {
                proof {
                    let key = other.0@[j as int].0@;
                    assert(env_lookup(self@, key) != env_lookup(other@, key));
                }
                return false;
            }
            j = j + 1;
        }
        proof {
            assert forall|name: Seq<char>| #[trigger] env_lookup(self@, name) == env_lookup(
                other@,
                name,
            ) by {
                if env_lookup(self@, name).is_some() {
                    lemma_env_lookup_present(self@, name);
                    let w = choose|w: int|
                        0 <= w < self@.len() && (#[trigger] self@[w]).0 == name;
                    assert(self@[w].0 == self.0@[w].0@);
                    assert(env_lookup(self@, self.0@[w].0@) == env_lookup(
                        other@,
                        self.0@[w].0@,
                    ));
                } else if env_lookup(other@, name).is_some() {
                    lemma_env_lookup_present(other@, name);
                    let w = choose|w: int|
                        0 <= w < other@.len() && (#[trigger] other@[w]).0 == name;
                    assert(other@[w].0 == other.0@[w].0@);
                    assert(env_lookup(self@, other.0@[w].0@) == env_lookup(
                        other@,
                        other.0@[w].0@,
                    ));
                }
            }
        }
        true
    }
}

impl vstd::std_specs::cmp::PartialEqSpecImpl for Env {
    open spec fn obeys_eq_spec() -> bool {
        true
    }

    open spec fn eq_spec(&self, other: &Env) -> bool {
        env_equal(self@, other@)
    }
}

// ---------------------------------------------------------------------------
// Environment-annotated IR
// ---------------------------------------------------------------------------

/// Expressions that carry an explicit environment; produced by the
/// environment resolver from post-CPS IR.
#[derive(Debug, PartialEq)]
pub enum LExEnv {
    /// Unary non-CPS lambda (administrative continuations take this form).
    Lam { arg: String, expr: Box<LExEnv>, env: Env, id: usize },
    /// CPS lambda with value and continuation parameters.
    LamCont { arg: String, cont: String, expr: Box<LExEnv>, env: Env, id: usize },
    /// Continuation application.
    App1 { cont: Box<LExEnv>, rand: Box<LExEnv>, env: Env },
    /// CPS application: operator, operand, continuation.
    App2 { rator: Box<LExEnv>, rand: Box<LExEnv>, cont: Box<LExEnv>, env: Env },
    /// A variable; `global` records that the name is not lexically bound.
    Var { name: String, global: bool, env: Env },
    /// A literal.
    Lit { val: ExprLit },
    /// A builtin reference.
    BuiltinIdent { name: String, arity: LamType },
    /// A reference to a lifted lambda.
    LamRef { id: usize },
}

/// Mathematical model of an `LExEnv` tree.
pub enum LExEnvView {
    Lam { arg: Seq<char>, expr: Box<LExEnvView>, env: Seq<(Seq<char>, nat)>, id: nat },
    LamCont {
        arg: Seq<char>,
        cont: Seq<char>,
        expr: Box<LExEnvView>,
        env: Seq<(Seq<char>, nat)>,
        id: nat,
    },
    App1 { cont: Box<LExEnvView>, rand: Box<LExEnvView>, env: Seq<(Seq<char>, nat)> },
    App2 {
        rator: Box<LExEnvView>,
        rand: Box<LExEnvView>,
        cont: Box<LExEnvView>,
        env: Seq<(Seq<char>, nat)>,
    },
    Var { name: Seq<char>, global: bool, env: Seq<(Seq<char>, nat)> },
    Lit { val: ExprLit },
    BuiltinIdent { name: Seq<char>, arity: LamType },
    LamRef { id: nat },
}

impl View for LExEnv {
    type V = LExEnvView;

    open spec fn view(&self) -> LExEnvView
        decreases self,
    {
        match self {
            LExEnv::Lam { arg, expr, env, id } => LExEnvView::Lam {
                arg: arg@,
                expr: Box::new((**expr)@),
                env: env@,
                id: *id as nat,
            },
            LExEnv::LamCont { arg, cont, expr, env, id } => LExEnvView::LamCont {
                arg: arg@,
                cont: cont@,
                expr: Box::new((**expr)@),
                env: env@,
                id: *id as nat,
            },
            LExEnv::App1 { cont, rand, env } => LExEnvView::App1 {
                cont: Box::new((**cont)@),
                rand: Box::new((**rand)@),
                env: env@,
            },
            LExEnv::App2 { rator, rand, cont, env } => LExEnvView::App2 {
                rator: Box::new((**rator)@),
                rand: Box::new((**rand)@),
                cont: Box::new((**cont)@),
                env: env@,
            },
            LExEnv::Var { name, global, env } => LExEnvView::Var {
                name: name@,
                global: *global,
                env: env@,
            },
            LExEnv::Lit { val } => LExEnvView::Lit { val: *val },
            LExEnv::BuiltinIdent { name, arity } => LExEnvView::BuiltinIdent {
                name: name@,
                arity: *arity,
            },
            LExEnv::LamRef { id } => LExEnvView::LamRef { id: *id as nat },
        }
    }
}

/// The s-expression text of an environment-annotated expression.
pub open spec fn code_of_env(x: LExEnvView) -> Seq<char>
    decreases x,
{
    match x {
        LExEnvView::Lam { arg, expr, .. } => "(lambda ("@ + arg + ") "@ + code_of_env(*expr)
            + ")"@,
        LExEnvView::LamCont { arg, cont, expr, .. } => "(lambda ("@ + arg + " "@ + cont + ") "@
            + code_of_env(*expr) + ")"@,
        LExEnvView::App1 { cont, rand, .. } => "("@ + code_of_env(*cont) + " "@ + code_of_env(
            *rand,
        ) + ")"@,
        LExEnvView::App2 { rator, rand, cont, .. } => "("@ + code_of_env(*rator) + " "@
            + code_of_env(*rand) + " "@ + code_of_env(*cont) + ")"@,
        LExEnvView::Var { name, .. } => name,
        LExEnvView::Lit { val: ExprLit::Void } => "void"@,
        LExEnvView::Lit { val: ExprLit::Int(i) } => int_code(i as int),
        LExEnvView::BuiltinIdent { name, .. } => name,
        LExEnvView::LamRef { id } => "lambda:"@ + dec_digits(id),
    }
}

impl LExEnv {
    /// The s-expression text of this expression, lifted lambdas shown as
    /// `lambda:<id>` (a debugging aid).
    pub fn to_code_string(&self) -> (r: String)
        ensures
            r@ == code_of_env(self@),
        decreases self,
    {
        match self {
            LExEnv::Lam { arg, expr, .. } => {
                let mut s = String::from_str("(lambda (");
                s.append(arg.as_str());
                s.append(") ");
                let es = expr.to_code_string();
                s.append(es.as_str());
                s.append(")");
                proof {
                    assert(s@ =~= code_of_env(self@));
                }
                s
            },
            LExEnv::LamCont { arg, cont, expr, .. } => {
                let mut s = String::from_str("(lambda (");
                s.append(arg.as_str());
                s.append(" ");
                s.append(cont.as_str());
                s.append(") ");
                let es = expr.to_code_string();
                s.append(es.as_str());
                s.append(")");
                proof {
                    assert(s@ =~= code_of_env(self@));
                }
                s
            },
            LExEnv::App1 { cont, rand, .. } => {
                let mut s = String::from_str("(");
                let cs = cont.to_code_string();
                s.append(cs.as_str());
                s.append(" ");
                let rs = rand.to_code_string();
                s.append(rs.as_str());
                s.append(")");
                proof {
                    assert(s@ =~= code_of_env(self@));
                }
                s
            },
            LExEnv::App2 { rator, rand, cont, .. } => {
                let mut s = String::from_str("(");
                let fs = rator.to_code_string();
                s.append(fs.as_str());
                s.append(" ");
                let rs = rand.to_code_string();
                s.append(rs.as_str());
                s.append(" ");
                let cs = cont.to_code_string();
                s.append(cs.as_str());
                s.append(")");
                proof {
                    assert(s@ =~= code_of_env(self@));
                }
                s
            },
            LExEnv::Var { name, .. } => name.clone(),
            LExEnv::Lit { val } => match val {
                ExprLit::Void => String::from_str("void"),
                ExprLit::Int(i) => i64_to_string(*i),
            },
            LExEnv::BuiltinIdent { name, .. } => name.clone(),
            LExEnv::LamRef { id } => {
                let mut s = String::from_str("lambda:");
                let num = u64_to_string(*id as u64);
                s.append(num.as_str());
                proof {
                    assert(*id as u64 as nat == *id as nat);
                    assert(s@ =~= code_of_env(self@));
                }
                s
            },
        }
    }
}

/// No in-line lambda remains: the post-lifting shape of expressions.
pub open spec fn lambda_free(x: LExEnvView) -> bool
    decreases x,
{
    match x {
        LExEnvView::Lam { .. } => false,
        LExEnvView::LamCont { .. } => false,
        LExEnvView::App1 { cont, rand, .. } => lambda_free(*cont) && lambda_free(*rand),
        LExEnvView::App2 { rator, rand, cont, .. } => lambda_free(*rator) && lambda_free(*rand)
            && lambda_free(*cont),
        LExEnvView::Var { .. } => true,
        LExEnvView::Lit { .. } => true,
        LExEnvView::BuiltinIdent { .. } => true,
        LExEnvView::LamRef { .. } => true,
    }
}

/// Every `Var` node is marked `global` exactly when its own environment
/// does not bind its name.
pub open spec fn globals_consistent(x: LExEnvView) -> bool
    decreases x,
{
    match x {
        LExEnvView::Lam { expr, .. } => globals_consistent(*expr),
        LExEnvView::LamCont { expr, .. } => globals_consistent(*expr),
        LExEnvView::App1 { cont, rand, .. } => globals_consistent(*cont) && globals_consistent(
            *rand,
        ),
        LExEnvView::App2 { rator, rand, cont, .. } => globals_consistent(*rator)
            && globals_consistent(*rand) && globals_consistent(*cont),
        LExEnvView::Var { name, global, env } => global == env_lookup(env, name).is_none(),
        LExEnvView::Lit { .. } => true,
        LExEnvView::BuiltinIdent { .. } => true,
        LExEnvView::LamRef { .. } => true,
    }
}

/// The ids of the lambdas of `x`, in traversal (preorder) order.
pub open spec fn lam_ids(x: LExEnvView) -> Seq<nat>
    decreases x,
{
    match x {
        LExEnvView::Lam { expr, id, .. } => seq![id] + lam_ids(*expr),
        LExEnvView::LamCont { expr, id, .. } => seq![id] + lam_ids(*expr),
        LExEnvView::App1 { cont, rand, .. } => lam_ids(*cont) + lam_ids(*rand),
        LExEnvView::App2 { rator, rand, cont, .. } => lam_ids(*rator) + lam_ids(*rand) + lam_ids(
            *cont,
        ),
        LExEnvView::Var { .. } => Seq::empty(),
        LExEnvView::Lit { .. } => Seq::empty(),
        LExEnvView::BuiltinIdent { .. } => Seq::empty(),
        LExEnvView::LamRef { .. } => Seq::empty(),
    }
}

} // verus!
