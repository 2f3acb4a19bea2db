use vstd::prelude::*;
use crate::ast::{Arg, Clause, Definition, Expr, FnParam, Stmt, TypeAst};
use crate::env::{
    lemma_applied_no_vars, vars_closed, entries_closed,
    apply_all, copy_labels, copy_opt_name, copy_type_entry, copy_value, find_module, fn_ty,
    Field, Local, ModuleInterface, Publicity, TypeCon, TypeEntry, TypeRef, ValueInfo, Variant,
};
use crate::error::TypeError;
use crate::infer::Checker;
use crate::lexer::{copy_name, same_name};
use crate::types::{copy_ty, Ty};

verus! {

broadcast use {crate::types::lemma_absorbs_chain, crate::types::lemma_absorbs_self};

/// The platform code is compiled for.
pub enum Target {
    Erlang,
    JavaScript,
}

/// Whether body-less functions must have an implementation for the target.
pub enum TargetSupport {
    Enforced,
    NotEnforced,
}

/// `b` starts with `a`.
pub open spec fn kept(a: Seq<Vec<char>>, b: Seq<Vec<char>>) -> bool {
    a.len() <= b.len() && forall|i: int| 0 <= i < a.len() ==> #[trigger] b[i] == a[i]
}

/// The views of a list of names.
pub open spec fn names_view(v: Seq<Vec<char>>) -> Seq<Seq<char>> {
    v.map_values(|x: Vec<char>| x@)
}

/// The names that an expression refers to, in order and with repeats, as
/// far as `fuel` levels of nesting reach: variables and the names through
/// which qualified names and constructors are reached.
pub open spec fn refs(e: Expr, fuel: nat) -> Seq<Seq<char>>
    decreases fuel, 0nat, 0nat,
{
    if fuel == 0 {
        Seq::empty()
    } else {
        let f = (fuel - 1) as nat;
        match e {
            Expr::Var(n) => seq![n@],
            Expr::List(elems, tail) => refs_list(elems@, f) + match tail {
                Some(t) => refs(*t, f),
                None => Seq::empty(),
            },
            Expr::Tuple(elems) => refs_list(elems@, f),
            Expr::TupleIndex(inner, _) => refs(*inner, f),
            Expr::Access(inner, _) => refs(*inner, f),
            Expr::Fn(_, _, body) => refs_stmts(body@, f),
            Expr::Call(c, args) => refs(*c, f) + refs_args(args@, f),
            Expr::Bin(_, a, b) => refs(*a, f) + refs(*b, f),
            Expr::Pipe(a, b) => refs(*a, f) + refs(*b, f),
            Expr::NegInt(inner) => refs(*inner, f),
            Expr::Not(inner) => refs(*inner, f),
            Expr::Case(subjects, clauses) => refs_list(subjects@, f) + refs_clauses(clauses@, f),
            Expr::Block(stmts) => refs_stmts(stmts@, f),
            Expr::Todo(m) => match m {
                Some(x) => refs(*x, f),
                None => Seq::empty(),
            },
            Expr::Panic(m) => match m {
                Some(x) => refs(*x, f),
                None => Seq::empty(),
            },
            Expr::BitArray(segs) => refs_segs(segs@, f),
            Expr::Update(c, b, args) => refs(*c, f) + refs(*b, f) + refs_args(args@, f),
            _ => Seq::empty(),
        }
    }
}

/// The names referred to by a list of expressions, with `fuel` for the list.
pub open spec fn refs_list(es: Seq<Expr>, fuel: nat) -> Seq<Seq<char>>
    decreases fuel, 0nat, 0nat,
{
    if fuel == 0 {
        Seq::empty()
    } else {
        refs_each(es, (fuel - 1) as nat)
    }
}

/// The names referred to by each expression of `es` in turn.
pub open spec fn refs_each(es: Seq<Expr>, f: nat) -> Seq<Seq<char>>
    decreases f, 1nat, es.len(),
{
    if es.len() == 0 {
        Seq::empty()
    } else {
        refs_each(es.drop_last(), f) + refs(es.last(), f)
    }
}

/// The names referred to by call arguments, with `fuel` for the list.
pub open spec fn refs_args(args: Seq<Arg>, fuel: nat) -> Seq<Seq<char>>
    decreases fuel, 0nat, 0nat,
{
    if fuel == 0 {
        Seq::empty()
    } else {
        refs_each_arg(args, (fuel - 1) as nat)
    }
}

/// The names referred to by each argument's value in turn.
pub open spec fn refs_each_arg(args: Seq<Arg>, f: nat) -> Seq<Seq<char>>
    decreases f, 1nat, args.len(),
{
    if args.len() == 0 {
        Seq::empty()
    } else {
        refs_each_arg(args.drop_last(), f) + refs(args.last().value, f)
    }
}

/// The names referred to by statements, with `fuel` for the list.
pub open spec fn refs_stmts(stmts: Seq<Stmt>, fuel: nat) -> Seq<Seq<char>>
    decreases fuel, 0nat, 0nat,
{
    if fuel == 0 {
        Seq::empty()
    } else {
        refs_each_stmt(stmts, (fuel - 1) as nat)
    }
}

/// The value a statement computes.
pub open spec fn stmt_expr(st: Stmt) -> Expr {
    match st {
        Stmt::Expr(e) => e,
        Stmt::Let { value, .. } => value,
    }
}

/// The names referred to by each statement's value in turn.
pub open spec fn refs_each_stmt(stmts: Seq<Stmt>, f: nat) -> Seq<Seq<char>>
    decreases f, 1nat, stmts.len(),
{
    if stmts.len() == 0 {
        Seq::empty()
    } else {
        refs_each_stmt(stmts.drop_last(), f) + refs(stmt_expr(stmts.last()), f)
    }
}

/// The names referred to by the guards and bodies of case clauses in turn.
pub open spec fn refs_clauses(cs: Seq<Clause>, f: nat) -> Seq<Seq<char>>
    decreases f, 1nat, cs.len(),
{
    if cs.len() == 0 {
        Seq::empty()
    } else {
        refs_clauses(cs.drop_last(), f) + match cs.last().guard {
            Some(g) => refs(g, f),
            None => Seq::empty(),
        } + refs(cs.last().body, f)
    }
}

/// The names referred to by the values of bit array segments in turn.
pub open spec fn refs_segs(segs: Seq<crate::ast::ExprSegment>, f: nat) -> Seq<Seq<char>>
    decreases f, 1nat, segs.len(),
{
    if segs.len() == 0 {
        Seq::empty()
    } else {
        refs_segs(segs.drop_last(), f) + refs(segs.last().value, f)
    }
}

/// The names of the variables an expression refers to (with repeats).
#[verifier::rlimit(100)]
#[verifier::spinoff_prover]
pub fn collect_refs(e: &Expr, out: &mut Vec<Vec<char>>, fuel: usize)
    ensures
        kept(old(out)@, final(out)@),
        names_view(final(out)@) == names_view(old(out)@) + refs(*e, fuel as nat),
    decreases fuel, 1nat,
{
    let ghost start = out@;
    if fuel == 0 {
        proof {
            assert(names_view(out@) =~= names_view(start) + refs(*e, fuel as nat));
        }
        return ;
    }
    let ghost f = (fuel - 1) as nat;
    match e {
        Expr::Var(n) => {
            out.push(copy_name(n));
            proof {
                assert(names_view(out@) =~= names_view(start) + refs(*e, fuel as nat));
            }
        },
        Expr::List(elems, tail) => {
            collect_refs_list(elems, out, fuel - 1);
            let ghost mid = out@;
            match tail {
                Some(t) => collect_refs(t, out, fuel - 1),
                None => {},
            }
            proof {
                assert(names_view(out@) =~= names_view(start) + refs(*e, fuel as nat));
            }
        },
        Expr::Tuple(elems) => collect_refs_list(elems, out, fuel - 1),
        Expr::TupleIndex(inner, _) => collect_refs(inner, out, fuel - 1),
        Expr::Access(inner, _) => collect_refs(inner, out, fuel - 1),
        Expr::Fn(_, _, body) => collect_refs_stmts(body, out, fuel - 1),
        Expr::Call(c, args) => {
            collect_refs(c, out, fuel - 1);
            collect_refs_args(args, out, fuel - 1);
            proof {
                assert(names_view(out@) =~= names_view(start) + refs(*e, fuel as nat));
            }
        },
        Expr::Bin(_, a, b) | Expr::Pipe(a, b) => {
            collect_refs(a, out, fuel - 1);
            collect_refs(b, out, fuel - 1);
            proof {
                assert(names_view(out@) =~= names_view(start) + refs(*e, fuel as nat));
            }
        },
        Expr::NegInt(inner) | Expr::Not(inner) => collect_refs(inner, out, fuel - 1),
        Expr::Case(subjects, clauses) => {
            collect_refs_list(subjects, out, fuel - 1);
            let ghost mid = out@;
            let mut i: usize = 0;
            while i < clauses.len()
                invariant
                    i <= clauses@.len(),
                    kept(start, out@),
                    names_view(out@) == names_view(mid) + refs_clauses(clauses@.take(i as int), f),
                decreases clauses@.len() - i,
            {
                let ghost before = out@;
                let c: &Clause = &clauses[i];
                match &c.guard {
                    Some(g) => collect_refs(g, out, fuel - 1),
                    None => {},
                }
                collect_refs(&c.body, out, fuel - 1);
                proof {
                    assert(clauses@.take(i + 1).drop_last() =~= clauses@.take(i as int));
                    assert(names_view(out@) =~= names_view(mid) + refs_clauses(
                        clauses@.take(i + 1),
                        f,
                    ));
                }
                i = i + 1;
            }
            proof {
                assert(clauses@.take(clauses@.len() as int) =~= clauses@);
                assert(names_view(out@) =~= names_view(start) + refs(*e, fuel as nat));
            }
        },
        Expr::Block(stmts) => collect_refs_stmts(stmts, out, fuel - 1),
        Expr::Todo(m) | Expr::Panic(m) => match m {
            Some(x) => collect_refs(x, out, fuel - 1),
            None => {
                proof {
                    assert(names_view(out@) =~= names_view(start) + refs(*e, fuel as nat));
                }
            },
        },
        Expr::BitArray(segs) => {
            let mut i: usize = 0;
            while i < segs.len()
                invariant
                    i <= segs@.len(),
                    kept(start, out@),
                    names_view(out@) == names_view(start) + refs_segs(segs@.take(i as int), f),
                decreases segs@.len() - i,
            {
                collect_refs(&segs[i].value, out, fuel - 1);
                proof {
                    assert(segs@.take(i + 1).drop_last() =~= segs@.take(i as int));
                    assert(names_view(out@) =~= names_view(start) + refs_segs(segs@.take(i + 1), f));
                }
                i = i + 1;
            }
            proof {
                assert(segs@.take(segs@.len() as int) =~= segs@);
            }
        },
        Expr::Update(c, b, args) => {
            collect_refs(c, out, fuel - 1);
            collect_refs(b, out, fuel - 1);
            collect_refs_args(args, out, fuel - 1);
            proof {
                assert(names_view(out@) =~= names_view(start) + refs(*e, fuel as nat));
            }
        },
        _ => {
            proof {
                assert(names_view(out@) =~= names_view(start) + refs(*e, fuel as nat));
            }
        },
    }
}

fn collect_refs_list(es: &Vec<Expr>, out: &mut Vec<Vec<char>>, fuel: usize)
    ensures
        kept(old(out)@, final(out)@),
        names_view(final(out)@) == names_view(old(out)@) + refs_list(es@, fuel as nat),
    decreases fuel, 0nat,
{
    let ghost start = out@;
    if fuel == 0 {
        proof {
            assert(names_view(out@) =~= names_view(start) + refs_list(es@, fuel as nat));
        }
        return ;
    }
    let ghost f = (fuel - 1) as nat;
    let mut i: usize = 0;
    while i < es.len()
        invariant
            i <= es@.len(),
            kept(start, out@),
            names_view(out@) == names_view(start) + refs_each(es@.take(i as int), f),
        decreases es@.len() - i,
    {
        collect_refs(&es[i], out, fuel - 1);
        proof {
            assert(es@.take(i + 1).drop_last() =~= es@.take(i as int));
            assert(names_view(out@) =~= names_view(start) + refs_each(es@.take(i + 1), f));
        }
        i = i + 1;
    }
    proof {
        assert(es@.take(es@.len() as int) =~= es@);
    }
}

fn collect_refs_args(args: &Vec<Arg>, out: &mut Vec<Vec<char>>, fuel: usize)
    ensures
        kept(old(out)@, final(out)@),
        names_view(final(out)@) == names_view(old(out)@) + refs_args(args@, fuel as nat),
    decreases fuel, 0nat,
{
    let ghost start = out@;
    if fuel == 0 {
        proof {
            assert(names_view(out@) =~= names_view(start) + refs_args(args@, fuel as nat));
        }
        return ;
    }
    let ghost f = (fuel - 1) as nat;
    let mut i: usize = 0;
    while i < args.len()
        invariant
            i <= args@.len(),
            kept(start, out@),
            names_view(out@) == names_view(start) + refs_each_arg(args@.take(i as int), f),
        decreases args@.len() - i,
    {
        collect_refs(&args[i].value, out, fuel - 1);
        proof {
            assert(args@.take(i + 1).drop_last() =~= args@.take(i as int));
            assert(names_view(out@) =~= names_view(start) + refs_each_arg(args@.take(i + 1), f));
        }
        i = i + 1;
    }
    proof {
        assert(args@.take(args@.len() as int) =~= args@);
    }
}

fn collect_refs_stmts(stmts: &Vec<Stmt>, out: &mut Vec<Vec<char>>, fuel: usize)
    ensures
        kept(old(out)@, final(out)@),
        names_view(final(out)@) == names_view(old(out)@) + refs_stmts(stmts@, fuel as nat),
    decreases fuel, 0nat,
{
    let ghost start = out@;
    if fuel == 0 {
        proof {
            assert(names_view(out@) =~= names_view(start) + refs_stmts(stmts@, fuel as nat));
        }
        return ;
    }
    let ghost f = (fuel - 1) as nat;
    let mut i: usize = 0;
    while i < stmts.len()
        invariant
            i <= stmts@.len(),
            kept(start, out@),
            names_view(out@) == names_view(start) + refs_each_stmt(stmts@.take(i as int), f),
        decreases stmts@.len() - i,
    {
        match &stmts[i] {
            Stmt::Expr(e) => collect_refs(e, out, fuel - 1),
            Stmt::Let { value, .. } => collect_refs(value, out, fuel - 1),
        }
        proof {
            assert(stmts@.take(i + 1).drop_last() =~= stmts@.take(i as int));
            assert(names_view(out@) =~= names_view(start) + refs_each_stmt(stmts@.take(i + 1), f));
        }
        i = i + 1;
    }
    proof {
        assert(stmts@.take(stmts@.len() as int) =~= stmts@);
    }
}

/// The local variables that a function's named parameters bind, in order,
/// each with the type prepared for its position (where there is one).
pub open spec fn param_bindings(params: Seq<FnParam>, tys: Seq<Ty>) -> Seq<(Seq<char>, Ty)>
    decreases params.len(),
{
    if params.len() == 0 {
        Seq::empty()
    } else {
        let inner = param_bindings(params.drop_last(), tys);
        let k = params.len() - 1;
        if params.last().name is Some && k < tys.len() {
            inner.push((params.last().name->0@, tys[k]))
        } else {
            inner
        }
    }
}

fn single_error_of(e: TypeError) -> (r: Vec<TypeError>)
    ensures
        r@ == seq![e],
{
    let mut v: Vec<TypeError> = Vec::new();
    v.push(e);
    v
}

/// The definition of a function with a body or of a constant is well
/// typed, under `s` and every refinement of it, with the named types
/// `types`, the module aliases `aliases` and the modules `modules` in scope
/// (and the module level values it was checked with): a function's body has
/// some type with its named parameters bound, a constant's value some type
/// with no local variable.
pub open spec fn member_typed(
    s: Seq<Option<Ty>>,
    types: Seq<TypeCon>,
    aliases: Seq<(Vec<char>, usize)>,
    modules: Seq<ModuleInterface>,
    def: Definition,
) -> bool {
    match def {
        Definition::Function { params, body: Some(stmts), .. } => exists|
            vals: Seq<ValueInfo>,
            ps: Seq<Ty>,
            rt: Ty,
        |
            #![trigger crate::typing::sound_stmts(s, crate::typing::Env { vals, types, aliases, modules }, param_bindings(params@, ps), stmts@, rt)]
            crate::typing::sound_stmts(
                s,
                crate::typing::Env { vals, types, aliases, modules },
                param_bindings(params@, ps),
                stmts@,
                rt,
            ),
        Definition::Constant { value, .. } => exists|vals: Seq<ValueInfo>, t: Ty|
            #![trigger crate::typing::sound_expr(s, crate::typing::Env { vals, types, aliases, modules }, Seq::empty(), value, t)]
            crate::typing::sound_expr(
                s,
                crate::typing::Env { vals, types, aliases, modules },
                Seq::empty(),
                value,
                t,
            ),
        _ => true,
    }
}

/// A member's typing carries over to a refinement of the substitution.
pub proof fn lemma_member_typed_refine(
    s_new: Seq<Option<Ty>>,
    s_old: Seq<Option<Ty>>,
    types: Seq<TypeCon>,
    aliases: Seq<(Vec<char>, usize)>,
    modules: Seq<ModuleInterface>,
    def: Definition,
)
    requires
        crate::types::absorbs(s_new, s_old),
        member_typed(s_old, types, aliases, modules, def),
    ensures
        member_typed(s_new, types, aliases, modules, def),
{
    match def {
        Definition::Function { params, body: Some(stmts), .. } => {
            let (vals, ps, rt) = choose|vals: Seq<ValueInfo>, ps: Seq<Ty>, rt: Ty|
                crate::typing::sound_stmts(
                    s_old,
                    crate::typing::Env { vals, types, aliases, modules },
                    param_bindings(params@, ps),
                    stmts@,
                    rt,
                );
            crate::typing::lemma_sound_stmts_refine(
                s_new,
                crate::typing::Env { vals, types, aliases, modules },
                s_old,
                param_bindings(params@, ps),
                stmts@,
                rt,
            );
        },
        Definition::Constant { value, .. } => {
            let (vals, t) = choose|vals: Seq<ValueInfo>, t: Ty|
                crate::typing::sound_expr(
                    s_old,
                    crate::typing::Env { vals, types, aliases, modules },
                    Seq::empty(),
                    value,
                    t,
                );
            crate::typing::lemma_sound_expr_refine(
                s_new,
                crate::typing::Env { vals, types, aliases, modules },
                s_old,
                Seq::empty(),
                value,
                t,
            );
        },
        _ => {},
    }
}

/// The number of `true` entries of `s`.
pub open spec fn count_true(s: Seq<bool>) -> nat
    decreases s.len(),
{
    if s.len() == 0 {
        0
    } else {
        count_true(s.drop_last()) + if s.last() {
            1nat
        } else {
            0nat
        }
    }
}

proof fn lemma_count_true_none(s: Seq<bool>)
    requires
        forall|x: int| 0 <= x < s.len() ==> !s[x],
    ensures
        count_true(s) == 0,
    decreases s.len(),
{
    if s.len() > 0 {
        lemma_count_true_none(s.drop_last());
    }
}

proof fn lemma_count_true_set(s: Seq<bool>, x: int)
    requires
        0 <= x < s.len(),
    ensures
        count_true(s.update(x, true)) == count_true(s) + if s[x] {
            0nat
        } else {
            1nat
        },
    decreases s.len(),
{
    if x < s.len() - 1 {
        assert(s.update(x, true).drop_last() =~= s.drop_last().update(x, true));
        lemma_count_true_set(s.drop_last(), x);
    } else {
        assert(s.update(x, true).drop_last() =~= s.drop_last());
    }
}

proof fn lemma_count_true_full(s: Seq<bool>)
    requires
        count_true(s) >= s.len(),
    ensures
        forall|x: int| 0 <= x < s.len() ==> #[trigger] s[x],
    decreases s.len(),
{
    if s.len() > 0 {
        lemma_count_true_bound(s.drop_last());
        assert(s.last());
        lemma_count_true_full(s.drop_last());
        assert forall|x: int| 0 <= x < s.len() implies #[trigger] s[x] by {
            if x < s.len() - 1 {
                assert(s.drop_last()[x] == s[x]);
            }
        }
    }
}

proof fn lemma_count_true_bound(s: Seq<bool>)
    ensures
        count_true(s) <= s.len(),
    decreases s.len(),
{
    if s.len() > 0 {
        lemma_count_true_bound(s.drop_last());
    }
}

/// The name an unqualified import brings into scope: its alias where it
/// has one, else the imported name.
pub open spec fn local_name(u: crate::ast::Unqualified) -> Seq<char> {
    match u.alias {
        Some(a) => a@,
        None => u.name@,
    }
}

/// The last value of the module named `name` exists and may be imported.
pub open spec fn importable_value_named(vs: Seq<ValueInfo>, name: Seq<char>) -> bool {
    exists|j: int| crate::typing::last_value(vs, name, j) && vs[j].publicity.importable()
}

/// The last type of the module named `name` exists and may be imported.
pub open spec fn importable_type_named(ts: Seq<TypeEntry>, name: Seq<char>) -> bool {
    exists|j: int| crate::typing::last_entry(ts, name, j) && ts[j].publicity.importable()
}

/// `v` is the value that importing `u` from a module with values `vs`
/// brings into scope: named by `u`'s local name, private, and with the type,
/// labels and constructor of the module's last value of the imported name.
pub open spec fn value_imported_at(vs: Seq<ValueInfo>, u: crate::ast::Unqualified, v: ValueInfo) -> bool {
    exists|j: int|
        crate::typing::last_value(vs, u.name@, j) && vs[j].publicity.importable() && v.name@ == local_name(u)
            && v.scheme == vs[j].scheme && v.generalized == vs[j].generalized && v.ctor == vs[j].ctor
            && v.publicity is Private
}

/// `e` is the type entry that importing `u` from a module with types `ts`
/// brings into scope: named by `u`'s local name, private, and standing for
/// what the module's last type of the imported name stands for.
pub open spec fn type_imported_at(ts: Seq<TypeEntry>, u: crate::ast::Unqualified, e: TypeEntry) -> bool {
    exists|j: int|
        crate::typing::last_entry(ts, u.name@, j) && ts[j].publicity.importable() && e.name@ == local_name(u)
            && e.kind == ts[j].kind && e.publicity is Private
}

/// An unqualified value import that can be made adds, at or after slot
/// `from` of the scope `sv`, the value it names under its local name.
pub open spec fn imported_value(vs: Seq<ValueInfo>, u: crate::ast::Unqualified, from: int, sv: Seq<ValueInfo>) -> bool {
    importable_value_named(vs, u.name@) ==> exists|k: int|
        from <= k < sv.len() && value_imported_at(vs, u, sv[k])
}

/// An unqualified type import that can be made adds, at or after entry
/// `from` of the scope `st`, the type it names under its local name.
pub open spec fn imported_type(ts: Seq<TypeEntry>, u: crate::ast::Unqualified, from: int, st: Seq<TypeEntry>) -> bool {
    importable_type_named(ts, u.name@) ==> exists|k: int|
        from <= k < st.len() && type_imported_at(ts, u, st[k])
}

/// Whether `name` is among `names`.
fn contains_name(names: &Vec<Vec<char>>, name: &Vec<char>) -> (r: bool)
    ensures
        r == exists|i: int| 0 <= i < names@.len() && (#[trigger] names@[i])@ == name@,
{
    let mut i: usize = 0;
    while i < names.len()
        invariant
            i <= names@.len(),
            forall|k: int| 0 <= k < i ==> (#[trigger] names@[k])@ != name@,
        decreases names@.len() - i,
    {
        if same_name(&names[i], name) {
            return true;
        }
        i = i + 1;
    }
    false
}

/// Whether `s` starts with `prefix`.
fn starts_with(s: &Vec<char>, prefix: &Vec<char>) -> (r: bool)
    ensures
        r == prefix@.is_prefix_of(s@),
{
    if prefix.len() > s.len() {
        return false;
    }
    let mut i: usize = 0;
    while i < prefix.len()
        invariant
            i <= prefix@.len(),
            prefix@.len() <= s@.len(),
            forall|k: int| 0 <= k < i ==> prefix@[k] == s@[k],
        decreases prefix@.len() - i,
    {
        if s[i] != prefix[i] {
            return false;
        }
        i = i + 1;
    }
    assert(prefix@ =~= s@.subrange(0, prefix@.len() as int));
    true
}

/// The name of the internal modules of a package: `package/internal`.
pub open spec fn internal_root(package: Seq<char>) -> Seq<char> {
    package + seq!['/', 'i', 'n', 't', 'e', 'r', 'n', 'a', 'l']
}

/// Whether the module is `package/internal` or lies under it.
pub open spec fn internal_module(package: Seq<char>, module: Seq<char>) -> bool {
    module == internal_root(package) || internal_root(package).push('/').is_prefix_of(module)
}

/// Whether a module of the package is internal: `package/internal` or a
/// module under it.
pub fn is_internal_module(package: &Vec<char>, module: &Vec<char>) -> (r: bool)
    ensures
        r == internal_module(package@, module@),
{
    let mut prefix = copy_name(package);
    prefix.push('/');
    prefix.push('i');
    prefix.push('n');
    prefix.push('t');
    prefix.push('e');
    prefix.push('r');
    prefix.push('n');
    prefix.push('a');
    prefix.push('l');
    assert(prefix@ =~= internal_root(package@));
    if same_name(module, &prefix) {
        return true;
    }
    prefix.push('/');
    starts_with(module, &prefix)
}

/// The publicity of a definition from its `pub` and `@internal` markers.
fn publicity_of(public: bool, internal: bool) -> (r: Publicity)
    ensures
        !public ==> r is Private,
        public && internal ==> r is Internal,
        public && !internal ==> r is Public,
{
    if !public {
        Publicity::Private
    } else if internal {
        Publicity::Internal
    } else {
        Publicity::Public
    }
}

/// The segments joined with `/`.
pub open spec fn join_segments(p: Seq<Seq<char>>) -> Seq<char>
    decreases p.len(),
{
    if p.len() == 0 {
        Seq::empty()
    } else if p.len() == 1 {
        p[0]
    } else {
        join_segments(p.drop_last()) + seq!['/'] + p.last()
    }
}

/// The module path `a/b/c` of its segments.
pub fn join_path(path: &Vec<Vec<char>>) -> (r: Vec<char>)
    ensures
        r@ == join_segments(path@.map_values(|s: Vec<char>| s@)),
{
    let ghost pv = path@.map_values(|s: Vec<char>| s@);
    let mut out: Vec<char> = Vec::new();
    let mut i: usize = 0;
    while i < path.len()
        invariant
            i <= path@.len(),
            pv == path@.map_values(|s: Vec<char>| s@),
            out@ == join_segments(pv.take(i as int)),
        decreases path@.len() - i,
    {
        let ghost before = out@;
        if i > 0 {
            out.push('/');
        }
        let seg = &path[i];
        let mut k: usize = 0;
        while k < seg.len()
            invariant
                k <= seg@.len(),
                out@ == (if i > 0 {
                    before + seq!['/']
                } else {
                    before
                }) + seg@.take(k as int),
            decreases seg@.len() - k,
        {
            out.push(seg[k]);
            assert(seg@.take(k + 1) =~= seg@.take(k as int).push(seg@[k as int]));
            k = k + 1;
        }
        proof {
            assert(seg@.take(seg@.len() as int) =~= seg@);
            assert(pv.take(i + 1).drop_last() =~= pv.take(i as int));
            assert(pv[i as int] == seg@);
            if i == 0 {
                assert(before =~= Seq::<char>::empty());
                assert(out@ =~= seg@);
            }
        }
        i = i + 1;
    }
    assert(pv.take(path@.len() as int) =~= pv);
    out
}

/// The nodes reached from those marked in `row` by at most one more edge.
pub open spec fn step(adj: Seq<Seq<bool>>, row: Seq<bool>) -> Seq<bool> {
    Seq::new(
        row.len(),
        |j: int| row[j] || exists|k: int| 0 <= k < row.len() && #[trigger] row[k] && adj[k][j],
    )
}

/// The nodes that a walk of one to `steps` edges leads to from node `i`.
pub open spec fn reachable_within(adj: Seq<Seq<bool>>, i: int, steps: nat) -> Seq<bool>
    decreases steps,
{
    if steps <= 1 {
        adj[i]
    } else {
        step(adj, reachable_within(adj, i, (steps - 1) as nat))
    }
}

/// The number of marked nodes.
pub open spec fn marked(row: Seq<bool>) -> nat
    decreases row.len(),
{
    if row.len() == 0 {
        0
    } else {
        marked(row.drop_last()) + if row.last() {
            1nat
        } else {
            0nat
        }
    }
}

proof fn lemma_marked_bound(row: Seq<bool>)
    ensures
        marked(row) <= row.len(),
    decreases row.len(),
{
    if row.len() > 0 {
        lemma_marked_bound(row.drop_last());
    }
}

/// Marking more nodes counts more; as many only when nothing was added.
proof fn lemma_marked_grows(a: Seq<bool>, b: Seq<bool>)
    requires
        a.len() == b.len(),
        forall|j: int| 0 <= j < a.len() && #[trigger] a[j] ==> b[j],
    ensures
        marked(a) <= marked(b),
        marked(a) == marked(b) ==> a == b,
    decreases a.len(),
{
    if a.len() > 0 {
        let j = a.len() - 1;
        assert(a[j] ==> b[j]);
        assert forall|x: int| 0 <= x < a.drop_last().len() && #[trigger] a.drop_last()[x] implies b.drop_last()[x] by {
            assert(a[x] ==> b[x]);
        }
        lemma_marked_grows(a.drop_last(), b.drop_last());
        if marked(a) == marked(b) {
            assert(a.drop_last() == b.drop_last());
            assert(a.last() == b.last());
            assert forall|x: int| 0 <= x < a.len() implies a[x] == b[x] by {
                if x < j {
                    assert(a[x] == a.drop_last()[x]);
                    assert(b[x] == b.drop_last()[x]);
                }
            }
            assert(a =~= b);
        }
    }
}

proof fn lemma_within_len(adj: Seq<Seq<bool>>, i: int, k: nat)
    requires
        0 <= i < adj.len(),
        forall|x: int| 0 <= x < adj.len() ==> #[trigger] adj[x].len() == adj.len(),
    ensures
        reachable_within(adj, i, k).len() == adj.len(),
    decreases k,
{
    if k > 1 {
        lemma_within_len(adj, i, (k - 1) as nat);
    }
}

proof fn lemma_within_step(adj: Seq<Seq<bool>>, i: int, k: nat)
    requires
        k >= 1,
    ensures
        reachable_within(adj, i, k + 1) == step(adj, reachable_within(adj, i, k)),
{
    assert((k + 1) as nat - 1 == k);
}

/// Once a step adds nothing, no later step does.
proof fn lemma_within_stable(adj: Seq<Seq<bool>>, i: int, k: nat, m: nat)
    requires
        k >= 1,
        k <= m,
        reachable_within(adj, i, k + 1) == reachable_within(adj, i, k),
    ensures
        reachable_within(adj, i, m) == reachable_within(adj, i, k),
    decreases m - k,
{
    if k < m {
        lemma_within_stable(adj, i, k, (m - 1) as nat);
        if m - 1 >= 1 {
            lemma_within_step(adj, i, (m - 1) as nat);
        }
        lemma_within_step(adj, i, k);
    }
}

/// While every step adds a node, `k` steps mark at least `k` nodes.
proof fn lemma_within_counts(adj: Seq<Seq<bool>>, i: int, k: nat)
    requires
        0 <= i < adj.len(),
        forall|x: int| 0 <= x < adj.len() ==> #[trigger] adj[x].len() == adj.len(),
        k >= 1,
        forall|j: nat|
            1 <= j < k ==> #[trigger] reachable_within(adj, i, j + 1) != reachable_within(adj, i, j),
    ensures
        marked(reachable_within(adj, i, k)) + 1 >= k,
    decreases k,
{
    if k > 1 {
        let j = (k - 1) as nat;
        lemma_within_counts(adj, i, j);
        lemma_within_step(adj, i, j);
        lemma_within_len(adj, i, j);
        let a = reachable_within(adj, i, j);
        let b = reachable_within(adj, i, k);
        assert(reachable_within(adj, i, j + 1) != reachable_within(adj, i, j));
        lemma_marked_grows(a, b);
    }
}

/// Walks longer than the number of nodes reach no node that a walk of at
/// most `n + 1` edges does not: `reachable_within` with `n + 1` steps is the
/// set of all nodes reachable from `i`.
pub proof fn lemma_reachability_closed(adj: Seq<Seq<bool>>, i: int, m: nat)
    requires
        0 <= i < adj.len(),
        forall|x: int| 0 <= x < adj.len() ==> #[trigger] adj[x].len() == adj.len(),
        m >= adj.len() + 1,
    ensures
        reachable_within(adj, i, m) == reachable_within(adj, i, (adj.len() + 1) as nat),
{
    let n = adj.len();
    if exists|j: nat|
        1 <= j <= n + 1 && #[trigger] reachable_within(adj, i, j + 1) == reachable_within(adj, i, j) {
        let j = choose|j: nat|
            1 <= j <= n + 1 && #[trigger] reachable_within(adj, i, j + 1) == reachable_within(adj, i, j);
        lemma_within_stable(adj, i, j, m);
        lemma_within_stable(adj, i, j, (n + 1) as nat);
    } else {
        lemma_within_counts(adj, i, (n + 2) as nat);
        lemma_within_len(adj, i, (n + 2) as nat);
        lemma_marked_bound(reachable_within(adj, i, (n + 2) as nat));
        assert(false);
    }
}

/// For each node, the nodes reachable from it by a walk of one to `n + 1`
/// edges, `n` being the number of nodes: by `lemma_reachability_closed`,
/// all the nodes reachable from it.
pub fn reachability(adj: &Vec<Vec<bool>>) -> (r: Vec<Vec<bool>>)
    requires
        forall|i: int| 0 <= i < adj@.len() ==> #[trigger] adj@[i]@.len() == adj@.len(),
    ensures
        r@.len() == adj@.len(),
        forall|i: int| 0 <= i < r@.len() ==> #[trigger] r@[i]@.len() == adj@.len(),
        forall|i: int|
            0 <= i < r@.len() ==> (#[trigger] r@[i])@ == reachable_within(
                adj@.map_values(|row: Vec<bool>| row@),
                i,
                (adj@.len() + 1) as nat,
            ),
{
    let ghost av = adj@.map_values(|row: Vec<bool>| row@);
    let n = adj.len();
    let mut rows: Vec<Vec<bool>> = Vec::new();
    let mut i: usize = 0;
    while i < n
        invariant
            n == adj@.len(),
            av == adj@.map_values(|row: Vec<bool>| row@),
            i <= n,
            rows@.len() == i,
            forall|k: int| 0 <= k < i ==> #[trigger] rows@[k]@.len() == n,
            forall|k: int|
                0 <= k < i ==> (#[trigger] rows@[k])@ == reachable_within(av, k, (n + 1) as nat),
        decreases n - i,
    {
        let mut row: Vec<bool> = Vec::new();
        let mut j: usize = 0;
        while j < n
            invariant
                n == adj@.len(),
                adj@[i as int]@.len() == n,
                j <= n,
                row@ == adj@[i as int]@.take(j as int),
            decreases n - j,
        {
            row.push(adj[i][j]);
            assert(adj@[i as int]@.take(j + 1) =~= adj@[i as int]@.take(j as int).push(
                adj@[i as int]@[j as int],
            ));
            j = j + 1;
        }
        assert(row@ =~= adj@[i as int]@);
        assert(row@ == reachable_within(av, i as int, 1));
        let mut round: usize = 0;
        while round < n
            invariant
                n == adj@.len(),
                round <= n,
                row@.len() == n,
                row@ == reachable_within(av, i as int, (round + 1) as nat),
            decreases n - round,
        {
            let mut next: Vec<bool> = Vec::new();
            let mut j: usize = 0;
            while j < n
                invariant
                    n == adj@.len(),
                    row@.len() == n,
                    j <= n,
                    next@.len() == j,
                    forall|x: int| 0 <= x < j ==> next@[x] == (#[trigger] step(av, row@))[x],
                decreases n - j,
            {
                let mut reach = row[j];
                let mut k: usize = 0;
                while k < n && !reach
                    invariant
                        n == adj@.len(),
                        row@.len() == n,
                        k <= n,
                        j < n,
                        reach == (row@[j as int] || exists|y: int|
                            0 <= y < k && #[trigger] row@[y] && av[y][j as int]),
                    decreases n - k,
                {
                    assert(av[k as int] == adj@[k as int]@);
                    if row[k] && adj[k][j] {
                        reach = true;
                    }
                    k = k + 1;
                }
                next.push(reach);
                j = j + 1;
            }
            assert(next@ =~= step(av, row@));
            row = next;
            round = round + 1;
        }
        rows.push(row);
        i = i + 1;
    }
    rows
}

/// `new` keeps every value of `old` in its slot, with its publicity.
pub open spec fn publicity_kept(old: Seq<ValueInfo>, new: Seq<ValueInfo>) -> bool {
    &&& old.len() <= new.len()
    &&& forall|i: int| 0 <= i < old.len() ==> (#[trigger] new[i]).publicity == old[i].publicity
}

/// Every value in the slots `defined` has a type without unification
/// variables.
pub open spec fn closed_slots(sv: Seq<ValueInfo>, defined: Seq<usize>) -> bool {
    forall|k: int|
        0 <= k < defined.len() ==> (defined[k] as int) < sv.len() && crate::types::no_vars(
            (#[trigger] sv[defined[k] as int]).scheme,
        )
}

/// None of the values in the slots `defined` is public.
pub open spec fn none_public(sv: Seq<ValueInfo>, defined: Seq<usize>) -> bool {
    forall|k: int|
        0 <= k < defined.len() ==> (defined[k] as int) < sv.len() && !((
        #[trigger] sv[defined[k] as int]).publicity is Public)
}

/// The slots of prepared members, in order.
spec fn prelim_slots(ps: Seq<Prelim>) -> Seq<usize> {
    ps.map_values(|p: Prelim| p.slot)
}

/// What a top level function or constant was given before its body was
/// checked.
struct Prelim {
    params: Vec<Ty>,
    ret: Ty,
    ann_vars: Vec<(Vec<char>, Ty)>,
    slot: usize,
}

impl Checker {
    /// Resets the scope to the prelude for checking a new module.
    pub fn begin_module(&mut self, name: Vec<char>)
        requires
            old(self).wf(),
        ensures
            final(self).wf(),
            final(self).module_name@ == name@,
            final(self).modules@ == old(self).modules@,
            (forall|m: int|
                0 <= m < old(self).modules@.len() ==> entries_closed(
                    #[trigger] old(self).modules@[m].types@,
                )) ==> final(self).aliases_closed(),
    {
        let ghost nv = name@;
        self.module_name = name;
        self.scope_types = Vec::new();
        self.scope_values = Vec::new();
        if self.modules.len() > 0 {
            let mut i: usize = 0;
            while i < self.modules[0].types.len()
                invariant
                    self.wf(),
                    self.module_name@ == nv,
                    self.modules@.len() > 0,
                    i <= self.modules@[0].types@.len(),
                    self.modules@ == old(self).modules@,
                    self.scope_types@.len() == i,
                    forall|x: int|
                        0 <= x < i ==> (#[trigger] self.scope_types@[x]).kind == self.modules@[0].types@[x].kind,
                decreases self.modules@[0].types@.len() - i,
            {
                let e = copy_type_entry(&self.modules[0].types[i]);
                self.scope_types.push(e);
                i = i + 1;
            }
            let mut j: usize = 0;
            while j < self.modules[0].values.len()
                invariant
                    self.wf(),
                    self.module_name@ == nv,
                    self.modules@.len() > 0,
                    j <= self.modules@[0].values@.len(),
                    self.modules@ == old(self).modules@,
                    self.scope_types@.len() == self.modules@[0].types@.len(),
                    forall|x: int|
                        0 <= x < self.scope_types@.len() ==> (#[trigger] self.scope_types@[x]).kind
                            == self.modules@[0].types@[x].kind,
                decreases self.modules@[0].values@.len() - j,
            {
                let v = copy_value(&self.modules[0].values[j]);
                self.scope_values.push(v);
                j = j + 1;
            }
        }
        assert(self.module_name@ == nv);
        self.aliases = Vec::new();
        self.locals = Vec::new();
        self.ann_vars = Vec::new();
    }

    fn process_import(
        &mut self,
        path: &Vec<Vec<char>>,
        alias: &Option<Vec<char>>,
        unqualified: &Vec<crate::ast::Unqualified>,
        errors: &mut Vec<TypeError>,
    )
        requires
            old(self).wf(),
        ensures
            final(self).wf(),
            publicity_kept(old(self).scope_values@, final(self).scope_values@),
            forall|i: int|
                0 <= i < old(self).scope_values@.len() ==> #[trigger] final(self).scope_values@[i]
                    == old(self).scope_values@[i],
            final(self).modules@ == old(self).modules@,
            old(self).aliases_closed() ==> final(self).aliases_closed(),
            old(errors)@.is_prefix_of(final(errors)@),
            old(self).scope_types@.is_prefix_of(final(self).scope_types@),
            old(self).scope_values@.is_prefix_of(final(self).scope_values@),
            (forall|k: int|
                0 <= k < old(self).modules@.len() ==> (#[trigger] old(self).modules@[k]).name@
                    != join_segments(path@.map_values(|s: Vec<char>| s@))) ==> {
                &&& final(errors)@.len() == old(errors)@.len() + 1
                &&& final(errors)@.last() is UnknownModule
                &&& final(errors)@.last()->UnknownModule_0@ == join_segments(path@.map_values(|s: Vec<char>| s@))
                &&& final(self).aliases@ == old(self).aliases@
                &&& final(self).scope_types@ == old(self).scope_types@
                &&& final(self).scope_values@ == old(self).scope_values@
            },
            (exists|k: int|
                0 <= k < old(self).modules@.len() && (#[trigger] old(self).modules@[k]).name@
                    == join_segments(path@.map_values(|s: Vec<char>| s@))) ==> {
                &&& final(self).aliases@.len() == old(self).aliases@.len() + 1
                &&& old(self).aliases@.is_prefix_of(final(self).aliases@)
                &&& final(self).aliases@.last().0@ == match *alias {
                    Some(a) => a@,
                    None => if path@.len() > 0 {
                        path@.last()@
                    } else {
                        join_segments(path@.map_values(|s: Vec<char>| s@))
                    },
                }
                &&& old(self).modules@[final(self).aliases@.last().1 as int].name@ == join_segments(
                    path@.map_values(|s: Vec<char>| s@),
                )
                &&& forall|k: int|
                    final(self).aliases@.last().1 < k < old(self).modules@.len() ==> (#[trigger] old(self).modules@[k]).name@ != join_segments(path@.map_values(|s: Vec<char>| s@))
                &&& final(errors)@.len() - old(errors)@.len() + final(self).scope_types@.len()
                    - old(self).scope_types@.len() + final(self).scope_values@.len()
                    - old(self).scope_values@.len() == unqualified@.len()
                &&& forall|k: int|
                    old(self).scope_types@.len() <= k < final(self).scope_types@.len() ==> (#[trigger] final(self).scope_types@[k]).publicity is Private
                &&& forall|k: int|
                    old(self).scope_values@.len() <= k < final(self).scope_values@.len() ==> (#[trigger] final(self).scope_values@[k]).publicity is Private
                &&& forall|i: int|
                    0 <= i < unqualified@.len() && !unqualified@[i].is_type ==> imported_value(
                        old(self).modules@[final(self).aliases@.last().1 as int].values@,
                        #[trigger] unqualified@[i],
                        old(self).scope_values@.len() as int,
                        final(self).scope_values@,
                    )
                &&& forall|i: int|
                    0 <= i < unqualified@.len() && unqualified@[i].is_type ==> imported_type(
                        old(self).modules@[final(self).aliases@.last().1 as int].types@,
                        #[trigger] unqualified@[i],
                        old(self).scope_types@.len() as int,
                        final(self).scope_types@,
                    )
            },
    {
        let ghost sv0 = self.scope_values@;
        let ghost st0 = self.scope_types@;
        let ghost e0 = errors@;
        let ghost al0 = self.aliases@;
        let full = join_path(path);
        let m = match find_module(&self.modules, &full) {
            Some(m) => m,
            None => {
                errors.push(TypeError::UnknownModule(full));
                return ;
            },
        };
        let alias_name = match alias {
            Some(a) => copy_name(a),
            None => {
                if path.len() > 0 {
                    copy_name(&path[path.len() - 1])
                } else {
                    copy_name(&full)
                }
            },
        };
        self.aliases.push((alias_name, m));
        let mut i: usize = 0;
        while i < unqualified.len()
            invariant
                self.wf(),
                i <= unqualified@.len(),
                m < self.modules@.len(),
                publicity_kept(sv0, self.scope_values@),
                forall|x: int| 0 <= x < sv0.len() ==> #[trigger] self.scope_values@[x] == sv0[x],
                self.modules@ == old(self).modules@,
                old(self).aliases_closed() ==> self.aliases_closed(),
                self.aliases@ == al0.push((alias_name, m)),
                e0.is_prefix_of(errors@),
                st0.is_prefix_of(self.scope_types@),
                sv0.is_prefix_of(self.scope_values@),
                errors@.len() - e0.len() + self.scope_types@.len() - st0.len() + self.scope_values@.len()
                    - sv0.len() == i,
                forall|k: int|
                    st0.len() <= k < self.scope_types@.len() ==> (#[trigger] self.scope_types@[k]).publicity
                        is Private,
                forall|k: int|
                    sv0.len() <= k < self.scope_values@.len() ==> (#[trigger] self.scope_values@[k]).publicity
                        is Private,
                forall|i2: int|
                    0 <= i2 < i && !unqualified@[i2].is_type ==> imported_value(
                        self.modules@[m as int].values@,
                        #[trigger] unqualified@[i2],
                        sv0.len() as int,
                        self.scope_values@,
                    ),
                forall|i2: int|
                    0 <= i2 < i && unqualified@[i2].is_type ==> imported_type(
                        self.modules@[m as int].types@,
                        #[trigger] unqualified@[i2],
                        st0.len() as int,
                        self.scope_types@,
                    ),
            decreases unqualified@.len() - i,
        {
            let u = &unqualified[i];
            let ghost svb = self.scope_values@;
            let ghost stb = self.scope_types@;
            let local_name = match &u.alias {
                Some(a) => copy_name(a),
                None => copy_name(&u.name),
            };
            if u.is_type {
                let ts = &self.modules[m].types;
                match crate::env::find_type(ts, &u.name) {
                    Some(k) => {
                        if ts[k].publicity.is_importable() {
                            let kind = crate::env::copy_type_ref(&ts[k].kind);
                            self.scope_types.push(
                                TypeEntry { name: local_name, kind, publicity: Publicity::Private },
                            );
                        } else {
                            errors.push(TypeError::UnknownType(copy_name(&u.name)));
                        }
                    },
                    None => {
                        errors.push(TypeError::UnknownType(copy_name(&u.name)));
                    },
                }
            } else {
                let vs = &self.modules[m].values;
                match crate::env::find_value(vs, &u.name) {
                    Some(k) => {
                        if vs[k].publicity.is_importable() {
                            let v = copy_value(&vs[k]);
                            self.scope_values.push(
                                ValueInfo {
                                    name: local_name,
                                    scheme: v.scheme,
                                    generalized: v.generalized,
                                    labels: v.labels,
                                    ctor: v.ctor,
                                    publicity: Publicity::Private,
                                },
                            );
                        } else {
                            errors.push(TypeError::UnknownModuleValue(copy_name(&u.name)));
                        }
                    },
                    None => {
                        errors.push(TypeError::UnknownModuleValue(copy_name(&u.name)));
                    },
                }
            }
            proof {
                let mv = self.modules@[m as int].values@;
                let mt = self.modules@[m as int].types@;
                assert forall|i2: int| 0 <= i2 < i + 1 && !unqualified@[i2].is_type implies imported_value(
                    mv,
                    #[trigger] unqualified@[i2],
                    sv0.len() as int,
                    self.scope_values@,
                ) by {
                    if i2 < i {
                        assert(svb.is_prefix_of(self.scope_values@));
                        if importable_value_named(mv, unqualified@[i2].name@) {
                            let k = choose|k: int|
                                sv0.len() <= k < svb.len() && value_imported_at(mv, unqualified@[i2], svb[k]);
                            assert(self.scope_values@[k] == svb[k]);
                        }
                    } else if importable_value_named(mv, unqualified@[i2].name@) {
                        let j = choose|j: int|
                            crate::typing::last_value(mv, unqualified@[i2].name@, j) && mv[j].publicity.importable();
                        let j2 = choose|j: int| crate::typing::last_value(mv, u.name@, j);
                        crate::typing::lemma_last_value_unique(mv, u.name@, j, j2);
                        assert(self.scope_values@.len() == svb.len() + 1);
                        assert(value_imported_at(mv, unqualified@[i2], self.scope_values@[svb.len() as int]));
                    }
                }
                assert forall|i2: int| 0 <= i2 < i + 1 && unqualified@[i2].is_type implies imported_type(
                    mt,
                    #[trigger] unqualified@[i2],
                    st0.len() as int,
                    self.scope_types@,
                ) by {
                    if i2 < i {
                        if importable_type_named(mt, unqualified@[i2].name@) {
                            let k = choose|k: int|
                                st0.len() <= k < stb.len() && type_imported_at(mt, unqualified@[i2], stb[k]);
                            assert(self.scope_types@[k] == stb[k]);
                        }
                    } else if importable_type_named(mt, unqualified@[i2].name@) {
                        let j = choose|j: int|
                            crate::typing::last_entry(mt, unqualified@[i2].name@, j) && mt[j].publicity.importable();
                        let j2 = choose|j: int| crate::typing::last_entry(mt, u.name@, j);
                        crate::typing::lemma_last_entry_unique(mt, u.name@, j, j2);
                        assert(self.scope_types@.len() == stb.len() + 1);
                        assert(type_imported_at(mt, unqualified@[i2], self.scope_types@[stb.len() as int]));
                    }
                }
            }
            i = i + 1;
        }
    }

    /// Sets the annotation variables to the parameters of a type
    /// definition, as quantified variables.
    fn set_param_vars(&mut self, params: &Vec<Vec<char>>)
        ensures
            final(self).subst == old(self).subst,
            final(self).scope_values == old(self).scope_values,
            final(self).scope_types == old(self).scope_types,
            final(self).modules == old(self).modules,
            final(self).types == old(self).types,
            vars_closed(final(self).ann_vars@),
    {
        self.ann_vars = Vec::new();
        let mut i: usize = 0;
        while i < params.len()
            invariant
                self.subst == old(self).subst,
                self.scope_values == old(self).scope_values,
                self.scope_types == old(self).scope_types,
                self.modules == old(self).modules,
                self.types == old(self).types,
                vars_closed(self.ann_vars@),
                i <= params@.len(),
            decreases params@.len() - i,
        {
            self.ann_vars.push((copy_name(&params[i]), Ty::Gen(i)));
            i = i + 1;
        }
    }

    /// Registers the constructors of a custom type.
    fn register_constructors(
        &mut self,
        id: usize,
        params: &Vec<Vec<char>>,
        ctors: &Vec<crate::ast::CtorDef>,
        opaque: bool,
        publicity: &Publicity,
        defined: &mut Vec<usize>,
        errors: &mut Vec<TypeError>,
    )
        requires
            old(self).wf(),
        ensures
            final(self).wf(),
            publicity_kept(old(self).scope_values@, final(self).scope_values@),
            none_public(old(self).scope_values@, old(defined)@) && !(*publicity is Public)
                ==> none_public(final(self).scope_values@, final(defined)@),
            final(self).scope_types@ == old(self).scope_types@,
            final(self).modules@ == old(self).modules@,
            old(self).aliases_closed() && closed_slots(old(self).scope_values@, old(defined)@)
                ==> closed_slots(final(self).scope_values@, final(defined)@),
            final(self).types@.len() == old(self).types@.len(),
            forall|k: int|
                0 <= k < old(self).types@.len() && k != id ==> #[trigger] final(self).types@[k]
                    == old(self).types@[k],
            (id as int) < old(self).types@.len() ==> {
                let t0 = old(self).types@[id as int];
                let t1 = final(self).types@[id as int];
                &&& t1.module@ == t0.module@ && t1.name@ == t0.name@ && t1.arity == t0.arity
                    && t1.publicity == t0.publicity
                &&& t1.variants@.len() == ctors@.len()
                &&& forall|c: int| 0 <= c < ctors@.len() ==> (#[trigger] t1.variants@[c]).name@ == ctors@[c].name@
            },
            old(errors)@.is_prefix_of(final(errors)@),
            old(self).scope_values@.is_prefix_of(final(self).scope_values@),
            old(defined)@.is_prefix_of(final(defined)@),
            final(defined)@.len() - old(defined)@.len() == final(self).scope_values@.len() - old(
                self).scope_values@.len(),
            forall|j: int|
                old(defined)@.len() <= j < final(defined)@.len() ==> #[trigger] final(defined)@[j] as int
                    == old(self).scope_values@.len() + (j - old(defined)@.len()),
            forall|k: int|
                old(self).scope_values@.len() <= k < final(self).scope_values@.len() ==> {
                    let v = #[trigger] final(self).scope_values@[k];
                    &&& v.ctor is Some && v.ctor.unwrap().0 == id && v.ctor.unwrap().1 < ctors@.len()
                    &&& v.name@ == ctors@[v.ctor.unwrap().1 as int].name@
                    &&& v.generalized
                    &&& v.publicity == if opaque {
                        Publicity::Private
                    } else {
                        *publicity
                    }
                },
            final(errors)@.len() == old(errors)@.len() ==> final(self).scope_values@.len()
                == old(self).scope_values@.len() + ctors@.len() && forall|c: int|
                0 <= c < ctors@.len() ==> (#[trigger] final(self).scope_values@[old(
                    self).scope_values@.len() + c]).ctor == Some((id, c as usize)),
    {
        let ghost sv0 = self.scope_values@;
        let ghost d0 = defined@;
        let ghost e0 = errors@;
        let ghost t0 = self.types@;
        let ghost closing = self.aliases_closed() && closed_slots(sv0, d0);
        self.set_param_vars(params);
        let mut gens: Vec<Ty> = Vec::new();
        let mut g: usize = 0;
        while g < params.len()
            invariant
                g <= params@.len(),
                forall|x: int| 0 <= x < gens@.len() ==> crate::types::no_vars(#[trigger] gens@[x]),
            decreases params@.len() - g,
        {
            gens.push(Ty::Gen(g));
            g = g + 1;
        }
        let named = apply_all(Ty::Con(id), &gens);
        proof {
            lemma_applied_no_vars(Ty::Con(id), gens@);
        }
        let mut variants: Vec<Variant> = Vec::new();
        let mut c: usize = 0;
        while c < ctors.len()
            invariant
                self.wf(),
                c <= ctors@.len(),
                publicity_kept(sv0, self.scope_values@),
                none_public(sv0, d0) && !(*publicity is Public) ==> none_public(
                    self.scope_values@,
                    defined@,
                ),
                self.scope_types@ == old(self).scope_types@,
                self.modules@ == old(self).modules@,
                vars_closed(self.ann_vars@),
                closing ==> closed_slots(self.scope_values@, defined@),
                crate::types::no_vars(named),
                self.types@ == t0,
                variants@.len() == c,
                forall|x: int| 0 <= x < c ==> (#[trigger] variants@[x]).name@ == ctors@[x].name@,
                e0.is_prefix_of(errors@),
                sv0.is_prefix_of(self.scope_values@),
                d0.is_prefix_of(defined@),
                defined@.len() - d0.len() == self.scope_values@.len() - sv0.len(),
                forall|j: int|
                    d0.len() <= j < defined@.len() ==> #[trigger] defined@[j] as int == sv0.len() + (j
                        - d0.len()),
                forall|k: int|
                    sv0.len() <= k < self.scope_values@.len() ==> {
                        let v = #[trigger] self.scope_values@[k];
                        &&& v.ctor is Some && v.ctor.unwrap().0 == id && v.ctor.unwrap().1 < c
                        &&& v.name@ == ctors@[v.ctor.unwrap().1 as int].name@
                        &&& v.generalized
                        &&& v.publicity == if opaque {
                            Publicity::Private
                        } else {
                            *publicity
                        }
                    },
                errors@.len() == e0.len() ==> self.scope_values@.len() == sv0.len() + c && forall|x: int|
                    0 <= x < c ==> (#[trigger] self.scope_values@[sv0.len() + x]).ctor == Some((id, x as usize)),
            decreases ctors@.len() - c,
        {
            let ctor = &ctors[c];
            let ghost sv_c = self.scope_values@;
            let ghost d_c = defined@;
            let ghost e_c = errors@;
            let mut fields: Vec<Field> = Vec::new();
            let mut ftys: Vec<Ty> = Vec::new();
            let mut labels: Vec<Option<Vec<char>>> = Vec::new();
            let mut seen_label = false;
            let mut ok = true;
            let mut f: usize = 0;
            while f < ctor.fields.len()
                invariant
                    self.wf(),
                    f <= ctor.fields@.len(),
                    publicity_kept(sv0, self.scope_values@),
                    none_public(sv0, d0) && !(*publicity is Public) ==> none_public(
                        self.scope_values@,
                        defined@,
                    ),
                    self.scope_types@ == old(self).scope_types@,
                    self.modules@ == old(self).modules@,
                    vars_closed(self.ann_vars@),
                    closing ==> closed_slots(self.scope_values@, defined@),
                    closing ==> forall|x: int|
                        0 <= x < ftys@.len() ==> crate::types::no_vars(#[trigger] ftys@[x]),
                    self.types@ == t0,
                    self.scope_values@ == sv_c,
                    defined@ == d_c,
                    e_c.is_prefix_of(errors@),
                    !ok ==> errors@.len() > e_c.len(),
                decreases ctor.fields@.len() - f,
            {
                let fd = &ctor.fields[f];
                if fd.label.is_some() {
                    seen_label = true;
                } else if seen_label {
                    errors.push(TypeError::PositionalAfterLabelled);
                    ok = false;
                }
                match self.hydrate(&fd.annotation, false, crate::parser::parse_depth()) {
                    Ok(t) => {
                        fields.push(Field { label: copy_opt_name(&fd.label), ty: copy_ty(&t) });
                        ftys.push(t);
                        labels.push(copy_opt_name(&fd.label));
                    },
                    Err(e) => {
                        errors.push(e);
                        ok = false;
                    },
                }
                f = f + 1;
            }
            let scheme = if ftys.len() == 0 {
                copy_ty(&named)
            } else {
                fn_ty(&ftys, copy_ty(&named))
            };
            proof {
                if closing && ftys@.len() > 0 {
                    assert forall|x: int| 0 <= x < ftys@.push(named).len() implies crate::types::no_vars(
                        #[trigger] ftys@.push(named)[x],
                    ) by {
                        if x < ftys@.len() {
                            assert(ftys@.push(named)[x] == ftys@[x]);
                        }
                    }
                    lemma_applied_no_vars(Ty::FnCon(ftys@.len() as usize), ftys@.push(named));
                }
            }
            let value_publicity = if opaque {
                Publicity::Private
            } else {
                publicity.copy()
            };
            if ok {
                let index = self.scope_values.len();
                let ghost sv1 = self.scope_values@;
                let ghost d1 = defined@;
                let ghost pub1 = value_publicity;
                self.scope_values.push(
                    ValueInfo {
                        name: copy_name(&ctor.name),
                        scheme,
                        generalized: true,
                        labels,
                        ctor: Some((id, c)),
                        publicity: value_publicity,
                    },
                );
                defined.push(index);
                proof {
                    assert(self.scope_values@[index as int].publicity == pub1);
                    if closing {
                        assert(closed_slots(sv1, d1));
                        assert forall|k: int| 0 <= k < defined@.len() implies (defined@[k] as int)
                            < self.scope_values@.len() && crate::types::no_vars(
                            (#[trigger] self.scope_values@[defined@[k] as int]).scheme,
                        ) by {
                            if k < d1.len() {
                                assert(defined@[k] == d1[k]);
                                assert(self.scope_values@[d1[k] as int] == sv1[d1[k] as int]);
                            }
                        }
                    }
                    if none_public(sv0, d0) && !(*publicity is Public) {
                        assert(none_public(sv1, d1));
                        assert(!(pub1 is Public));
                        assert forall|k: int| 0 <= k < defined@.len() implies (defined@[k] as int)
                            < self.scope_values@.len() && !((
                        #[trigger] self.scope_values@[defined@[k] as int]).publicity is Public) by {
                            if k < d1.len() {
                                assert(defined@[k] == d1[k]);
                                assert(self.scope_values@[d1[k] as int] == sv1[d1[k] as int]);
                            }
                        }
                    }
                }
            }
            variants.push(Variant { name: copy_name(&ctor.name), fields });
            c = c + 1;
        }
        if id < self.types.len() {
            let old = &self.types[id];
            let updated = TypeCon {
                module: copy_name(&old.module),
                name: copy_name(&old.name),
                arity: old.arity,
                publicity: old.publicity.copy(),
                variants,
            };
            self.types.set(id, updated);
        }
    }

    /// Gives each member of a group of functions and constants a type from
    /// its annotations, before any body is checked.
    fn prepare_member(
        &mut self,
        def: &Definition,
        internal_module: bool,
        errors: &mut Vec<TypeError>,
    ) -> (r: Prelim)
        requires
            old(self).wf(),
        ensures
            final(self).wf(),
            r.slot < final(self).scope_values@.len(),
            publicity_kept(old(self).scope_values@, final(self).scope_values@),
            internal_module ==> !(final(self).scope_values@[r.slot as int].publicity is Public),
            forall|i: int|
                0 <= i < old(self).scope_values@.len() ==> #[trigger] final(self).scope_values@[i]
                    == old(self).scope_values@[i],
            final(self).scope_types@ == old(self).scope_types@,
            final(self).modules@ == old(self).modules@,
            crate::types::absorbs(final(self).subst.binds@, old(self).subst.binds@),
            old(errors)@.len() <= final(errors)@.len(),
            final(self).types@ == old(self).types@,
            final(self).aliases@ == old(self).aliases@,
    {
        let ghost sv0 = self.scope_values@;
        self.ann_vars = Vec::new();
        let depth = crate::parser::parse_depth();
        match def {
            Definition::Function { public, internal, name, params, ret, .. } => {
                let mut ptys: Vec<Ty> = Vec::new();
                let mut labels: Vec<Option<Vec<char>>> = Vec::new();
                let mut i: usize = 0;
                while i < params.len()
                    invariant
                        self.wf(),
                        i <= params@.len(),
                        publicity_kept(sv0, self.scope_values@),
                        self.scope_values@ == sv0,
                        self.scope_types@ == old(self).scope_types@,
                        self.modules@ == old(self).modules@,
                        crate::types::absorbs(self.subst.binds@, old(self).subst.binds@),
                        old(errors)@.len() <= errors@.len(),
                        self.types@ == old(self).types@,
                        self.aliases@ == old(self).aliases@,
                    decreases params@.len() - i,
                {
                    let p: &FnParam = &params[i];
                    let t = match self.hydrate_or_fresh_pub(&p.annotation, depth) {
                        Ok(t) => t,
                        Err(e) => {
                            errors.push(e);
                            self.fresh_var()
                        },
                    };
                    ptys.push(t);
                    labels.push(copy_opt_name(&p.label));
                    i = i + 1;
                }
                let rt = match self.hydrate_or_fresh_pub(ret, depth) {
                    Ok(t) => t,
                    Err(e) => {
                        errors.push(e);
                        self.fresh_var()
                    },
                };
                let scheme = fn_ty(&ptys, copy_ty(&rt));
                let slot = self.scope_values.len();
                self.scope_values.push(
                    ValueInfo {
                        name: copy_name(name),
                        scheme,
                        generalized: false,
                        labels,
                        ctor: None,
                        publicity: publicity_of(*public, *internal || internal_module),
                    },
                );
                let mut ann: Vec<(Vec<char>, Ty)> = Vec::new();
                std::mem::swap(&mut ann, &mut self.ann_vars);
                Prelim { params: ptys, ret: rt, ann_vars: ann, slot }
            },
            Definition::Constant { public, internal, name, annotation, .. } => {
                let t = match self.hydrate_or_fresh_pub(annotation, depth) {
                    Ok(t) => t,
                    Err(e) => {
                        errors.push(e);
                        self.fresh_var()
                    },
                };
                let slot = self.scope_values.len();
                self.scope_values.push(
                    ValueInfo {
                        name: copy_name(name),
                        scheme: copy_ty(&t),
                        generalized: false,
                        labels: Vec::new(),
                        ctor: None,
                        publicity: publicity_of(*public, *internal || internal_module),
                    },
                );
                let mut ann: Vec<(Vec<char>, Ty)> = Vec::new();
                std::mem::swap(&mut ann, &mut self.ann_vars);
                Prelim { params: Vec::new(), ret: t, ann_vars: ann, slot }
            },
            _ => {
                let t = self.fresh_var();
                let slot = self.scope_values.len();
                self.scope_values.push(
                    ValueInfo {
                        name: Vec::new(),
                        scheme: copy_ty(&t),
                        generalized: false,
                        labels: Vec::new(),
                        ctor: None,
                        publicity: Publicity::Private,
                    },
                );
                Prelim { params: Vec::new(), ret: t, ann_vars: Vec::new(), slot }
            },
        }
    }

    /// Checks the body of a function or the value of a constant against
    /// the type it was prepared with. At most one error is added; where none
    /// is, a function's body has the prepared return type with its named
    /// parameters bound to their prepared types, and a constant's value has
    /// the prepared type, under the substitution reached and every
    /// refinement of it. A function without a body adds the error of a
    /// missing implementation exactly where the target's support is enforced
    /// and the function has no external implementation for it.
    fn check_member(
        &mut self,
        def: &Definition,
        prelim: Prelim,
        target: &Target,
        support: &TargetSupport,
        errors: &mut Vec<TypeError>,
    )
        requires
            old(self).wf(),
        ensures
            final(self).wf(),
            final(self).scope_values@ == old(self).scope_values@,
            final(self).scope_types@ == old(self).scope_types@,
            final(self).modules@ == old(self).modules@,
            final(self).locals@.len() == 0,
            old(errors)@.is_prefix_of(final(errors)@),
            final(errors)@.len() <= old(errors)@.len() + 1,
            *def matches Definition::Function { params, body: Some(stmts), .. } ==> (final(errors)@.len()
                == old(errors)@.len() ==> crate::typing::sound_stmts(
                final(self).subst.binds@,
                old(self).env(),
                param_bindings(params@, prelim.params@),
                stmts@,
                prelim.ret,
            )),
            *def matches Definition::Constant { value, .. } ==> (final(errors)@.len() == old(errors)@.len()
                ==> crate::typing::sound_expr(
                final(self).subst.binds@,
                old(self).env(),
                Seq::empty(),
                value,
                prelim.ret,
            )),
            *def matches Definition::Function { name, body: None, erlang_external, javascript_external, .. }
                ==> (final(errors)@.len() == old(errors)@.len() + 1 <==> (*support is Enforced && !match *target {
                Target::Erlang => erlang_external,
                Target::JavaScript => javascript_external,
            })) && (final(errors)@.len() == old(errors)@.len() + 1 ==> final(errors)@.last()
                is MissingImplementation && final(errors)@.last()->MissingImplementation_0@ == name@),
            !(def is Function) && !(def is Constant) ==> final(errors)@ == old(errors)@,
            crate::types::absorbs(final(self).subst.binds@, old(self).subst.binds@),
            final(self).types@ == old(self).types@,
            final(self).aliases@ == old(self).aliases@,
            final(errors)@.len() == old(errors)@.len() ==> member_typed(
                final(self).subst.binds@,
                old(self).types@,
                old(self).aliases@,
                old(self).modules@,
                *def,
            ),
    {
        let ghost sv0 = self.scope_values@;
        let ghost env0 = self.env();
        let ghost s0 = self.subst.binds@;
        let ghost e0 = errors@;
        let depth = crate::parser::parse_depth();
        self.ann_vars = prelim.ann_vars;
        self.locals = Vec::new();
        match def {
            Definition::Function { name, params, body, erlang_external, javascript_external, .. } => {
                match body {
                    Some(stmts) => {
                        let mut i: usize = 0;
                        while i < params.len()
                            invariant
                                self.wf(),
                                i <= params@.len(),
                                self.scope_values@ == sv0,
                                self.scope_types@ == old(self).scope_types@,
                                self.modules@ == old(self).modules@,
                                self.env() == env0,
                                self.subst.binds@ == s0,
                                errors@ == e0,
                                crate::typing::bindings(self.locals@) == param_bindings(
                                    params@.take(i as int),
                                    prelim.params@,
                                ),
                            decreases params@.len() - i,
                        {
                            proof {
                                assert(params@.take(i + 1).drop_last() =~= params@.take(i as int));
                            }
                            match &params[i].name {
                                Some(n) => {
                                    if i < prelim.params.len() {
                                        let ghost lb = self.locals@;
                                        self.locals.push(
                                            Local {
                                                name: copy_name(n),
                                                ty: copy_ty(&prelim.params[i]),
                                                variant: None,
                                            },
                                        );
                                        proof {
                                            crate::typing::lemma_bindings_push(lb, self.locals@.last());
                                            assert(lb.push(self.locals@.last()) =~= self.locals@);
                                        }
                                    }
                                },
                                None => {},
                            }
                            i = i + 1;
                        }
                        proof {
                            assert(params@.take(params@.len() as int) =~= params@);
                        }
                        let ghost ctx = crate::typing::bindings(self.locals@);
                        match self.infer_stmts(stmts, depth) {
                            Ok(t) => {
                                let ghost s_body = self.subst.binds@;
                                match self.unify_types(&prelim.ret, &t.ty) {
                                    Ok(()) => {
                                        proof {
                                            crate::typing::lemma_sound_stmts_refine(
                                                self.subst.binds@,
                                                env0,
                                                s_body,
                                                ctx,
                                                stmts@,
                                                t.ty,
                                            );
                                            crate::typing::lemma_sound_stmts_respects(
                                                self.subst.binds@,
                                                env0,
                                                ctx,
                                                stmts@,
                                                t.ty,
                                                prelim.ret,
                                            );
                                        }
                                    },
                                    Err(e) => errors.push(e),
                                }
                            },
                            Err(e) => errors.push(e),
                        }
                    },
                    None => {
                        let supported = match target {
                            Target::Erlang => *erlang_external,
                            Target::JavaScript => *javascript_external,
                        };
                        let enforced = matches!(support, TargetSupport::Enforced);
                        if enforced && !supported {
                            errors.push(TypeError::MissingImplementation(copy_name(name)));
                        }
                    },
                }
            },
            Definition::Constant { value, .. } => {
                match self.infer_expr(value, depth) {
                    Ok(t) => {
                        let ghost s_val = self.subst.binds@;
                        match self.unify_types(&prelim.ret, &t.ty) {
                            Ok(()) => {
                                proof {
                                    assert(crate::typing::bindings(Seq::<Local>::empty()) =~= Seq::<
                                        (Seq<char>, Ty),
                                    >::empty());
                                    crate::typing::lemma_sound_expr_refine(
                                        self.subst.binds@,
                                        env0,
                                        s_val,
                                        Seq::empty(),
                                        *value,
                                        t.ty,
                                    );
                                    crate::typing::lemma_sound_expr_respects(
                                        self.subst.binds@,
                                        env0,
                                        Seq::empty(),
                                        *value,
                                        t.ty,
                                        prelim.ret,
                                    );
                                }
                            },
                            Err(e) => errors.push(e),
                        }
                    },
                    Err(e) => errors.push(e),
                }
            },
            _ => {},
        }
        self.locals = Vec::new();
    }

    /// Quantifies the type of the value in `slot`.
    fn generalize_slot(&mut self, slot: usize)
        requires
            old(self).wf(),
        ensures
            final(self).wf(),
            publicity_kept(old(self).scope_values@, final(self).scope_values@),
            final(self).scope_values@.len() == old(self).scope_values@.len(),
            forall|i: int|
                0 <= i < old(self).scope_values@.len() && i != slot ==> #[trigger] final(self).scope_values@[i]
                    == old(self).scope_values@[i],
            (slot as int) < old(self).scope_values@.len() ==> crate::types::no_vars(
                final(self).scope_values@[slot as int].scheme,
            ),
            final(self).scope_types@ == old(self).scope_types@,
            final(self).modules@ == old(self).modules@,
            final(self).subst == old(self).subst,
            final(self).types@ == old(self).types@,
            final(self).aliases@ == old(self).aliases@,
    {
        if slot < self.scope_values.len() {
            let v = &self.scope_values[slot];
            let scheme = self.generalize(&v.scheme);
            let updated = ValueInfo {
                name: copy_name(&v.name),
                scheme,
                generalized: true,
                labels: copy_labels(&v.labels),
                ctor: v.ctor,
                publicity: v.publicity.copy(),
            };
            self.scope_values.set(slot, updated);
        }
    }

    /// Checks the definitions of a module; on success, what it exports. The
    /// types and values exported by an internal module are never public;
    /// where every type alias known is closed, so are the exported ones and
    /// the types of the exported values. Exported values have distinct
    /// names, and on success every function body and constant value of the
    /// module is well typed.
    #[verifier::rlimit(100)]
    #[verifier::spinoff_prover]
    pub fn check_module(
        &mut self,
        package: &Vec<char>,
        defs: &Vec<Definition>,
        target: &Target,
        support: &TargetSupport,
    ) -> (r: Result<ModuleInterface, Vec<TypeError>>)
        requires
            old(self).wf(),
        ensures
            final(self).wf(),
            r matches Err(es) ==> es@.len() > 0,
            r matches Ok(m) ==> m.name@ == old(self).module_name@ && m.package@ == package@,
            r matches Ok(m) ==> forall|i: int, j: int|
                0 <= i < j < m.values@.len() ==> (#[trigger] m.values@[i]).name@ != (#[trigger] m.values@[j]).name@,
            r is Ok ==> forall|d: int|
                0 <= d < defs@.len() ==> #[trigger] member_typed(
                    final(self).subst.binds@,
                    final(self).types@,
                    final(self).aliases@,
                    final(self).modules@,
                    defs@[d],
                ),
            r matches Ok(m) ==> (internal_module(package@, old(self).module_name@) ==> forall|i: int|
                0 <= i < m.types@.len() ==> !(#[trigger] m.types@[i].publicity is Public)),
            r matches Ok(m) ==> (internal_module(package@, old(self).module_name@) ==> forall|i: int|
                0 <= i < m.values@.len() ==> !(#[trigger] m.values@[i].publicity is Public)),
            final(self).modules@ == old(self).modules@,
            r matches Ok(m) ==> (old(self).aliases_closed() ==> entries_closed(m.types@)),
            r matches Ok(m) ==> (old(self).aliases_closed() ==> forall|i: int|
                0 <= i < m.values@.len() ==> crate::types::no_vars(#[trigger] m.values@[i].scheme)),
    {
        let ghost ac0 = self.aliases_closed();
        let module_name = copy_name(&self.module_name);
        let internal_module = is_internal_module(package, &self.module_name);
        let mut errors: Vec<TypeError> = Vec::new();
        let mut exported_types: Vec<TypeEntry> = Vec::new();
        let mut defined: Vec<usize> = Vec::new();
        let nd = defs.len();
        // Imports.
        let mut d: usize = 0;
        while d < nd
            invariant
                self.wf(),
                internal_module ==> none_public(self.scope_values@, defined@),
                self.modules@ == old(self).modules@,
                ac0 ==> self.aliases_closed(),
                ac0 ==> entries_closed(exported_types@),
                ac0 ==> closed_slots(self.scope_values@, defined@),
                nd == defs@.len(),
                d <= nd,
            decreases nd - d,
        {
            match &defs[d] {
                Definition::Import { path, alias, unqualified } => {
                    self.process_import(path, alias, unqualified, &mut errors);
                },
                _ => {},
            }
            d = d + 1;
        }
        // Names of custom types.
        let mut custom_ids: Vec<(usize, usize)> = Vec::new();
        let mut d: usize = 0;
        while d < nd
            invariant
                self.wf(),
                internal_module ==> none_public(self.scope_values@, defined@),
                self.modules@ == old(self).modules@,
                ac0 ==> self.aliases_closed(),
                ac0 ==> entries_closed(exported_types@),
                ac0 ==> closed_slots(self.scope_values@, defined@),
                nd == defs@.len(),
                d <= nd,
                internal_module ==> forall|i: int|
                    0 <= i < exported_types@.len() ==> !(#[trigger] exported_types@[i].publicity is Public),
            decreases nd - d,
        {
            match &defs[d] {
                Definition::CustomType { public, internal, name, params, .. } => {
                    let publicity = publicity_of(*public, *internal || internal_module);
                    let id = self.types.len();
                    self.types.push(
                        TypeCon {
                            module: copy_name(&self.module_name),
                            name: copy_name(name),
                            arity: params.len(),
                            publicity: publicity.copy(),
                            variants: Vec::new(),
                        },
                    );
                    self.type_names.push(copy_name(name));
                    let entry = TypeEntry { name: copy_name(name), kind: TypeRef::Con(id), publicity };
                    self.scope_types.push(copy_type_entry(&entry));
                    exported_types.push(entry);
                    custom_ids.push((d, id));
                },
                _ => {},
            }
            d = d + 1;
        }
        // Type aliases.
        let mut d: usize = 0;
        while d < nd
            invariant
                self.wf(),
                internal_module ==> none_public(self.scope_values@, defined@),
                self.modules@ == old(self).modules@,
                ac0 ==> self.aliases_closed(),
                ac0 ==> entries_closed(exported_types@),
                ac0 ==> closed_slots(self.scope_values@, defined@),
                nd == defs@.len(),
                d <= nd,
                internal_module ==> forall|i: int|
                    0 <= i < exported_types@.len() ==> !(#[trigger] exported_types@[i].publicity is Public),
            decreases nd - d,
        {
            match &defs[d] {
                Definition::TypeAlias { public, internal, name, params, target } => {
                    self.set_param_vars(params);
                    match self.hydrate(target, false, crate::parser::parse_depth()) {
                        Ok(t) => {
                            let publicity = publicity_of(*public, *internal || internal_module);
                            let entry = TypeEntry {
                                name: copy_name(name),
                                kind: TypeRef::Alias(params.len(), t),
                                publicity,
                            };
                            self.scope_types.push(copy_type_entry(&entry));
                            exported_types.push(entry);
                        },
                        Err(e) => errors.push(e),
                    }
                },
                _ => {},
            }
            d = d + 1;
        }
        // Constructors.
        let mut c: usize = 0;
        while c < custom_ids.len()
            invariant
                self.wf(),
                internal_module ==> none_public(self.scope_values@, defined@),
                self.modules@ == old(self).modules@,
                ac0 ==> self.aliases_closed(),
                ac0 ==> entries_closed(exported_types@),
                ac0 ==> closed_slots(self.scope_values@, defined@),
                nd == defs@.len(),
                c <= custom_ids@.len(),
            decreases custom_ids@.len() - c,
        {
            let (di, id) = custom_ids[c];
            if di < nd {
                match &defs[di] {
                    Definition::CustomType { public, opaque, internal, params, constructors, .. } => {
                        match constructors {
                            Some(ctors) => {
                                let publicity = publicity_of(*public, *internal || internal_module);
                                self.register_constructors(
                                    id,
                                    params,
                                    ctors,
                                    *opaque,
                                    &publicity,
                                    &mut defined,
                                    &mut errors,
                                );
                            },
                            None => {},
                        }
                    },
                    _ => {},
                }
            }
            c = c + 1;
        }
        let ghost e_before = errors@.len();
        self.check_values(defs, internal_module, target, support, &mut defined, &mut errors);
        if errors.len() > 0 {
            return Err(errors);
        }
        assert(e_before == 0);
        let mut values: Vec<ValueInfo> = Vec::new();
        let mut k: usize = 0;
        while k < defined.len()
            invariant
                k <= defined@.len(),
                internal_module ==> none_public(self.scope_values@, defined@),
                self.modules@ == old(self).modules@,
                ac0 ==> self.aliases_closed(),
                ac0 ==> entries_closed(exported_types@),
                ac0 ==> closed_slots(self.scope_values@, defined@),
                internal_module ==> forall|x: int|
                    0 <= x < values@.len() ==> !(#[trigger] values@[x].publicity is Public),
                ac0 ==> closed_slots(self.scope_values@, defined@),
                ac0 ==> forall|x: int|
                    0 <= x < values@.len() ==> crate::types::no_vars(#[trigger] values@[x].scheme),
            decreases defined@.len() - k,
        {
            let slot = defined[k];
            if slot < self.scope_values.len() {
                values.push(copy_value(&self.scope_values[slot]));
            }
            k = k + 1;
        }
        let mut a: usize = 0;
        while a < values.len()
            invariant
                a <= values@.len(),
                forall|i: int, j: int|
                    0 <= i < a && i < j < values@.len() ==> (#[trigger] values@[i]).name@
                        != (#[trigger] values@[j]).name@,
            decreases values@.len() - a,
        {
            let mut b: usize = a + 1;
            while b < values.len()
                invariant
                    a < b <= values@.len(),
                    forall|j: int| a < j < b ==> values@[a as int].name@ != (#[trigger] values@[j]).name@,
                decreases values@.len() - b,
            {
                if same_name(&values[a].name, &values[b].name) {
                    return Err(single_error_of(TypeError::DuplicateName(copy_name(&values[b].name))));
                }
                b = b + 1;
            }
            a = a + 1;
        }
        Ok(ModuleInterface { name: module_name, package: copy_name(package), types: exported_types, values })
    }

    fn hydrate_or_fresh_pub(&mut self, ast: &Option<TypeAst>, fuel: usize) -> (r: Result<
        Ty,
        TypeError,
    >)
        requires
            old(self).wf(),
        ensures
            final(self).wf(),
            final(self).scope_values@ == old(self).scope_values@,
            final(self).scope_types@ == old(self).scope_types@,
            final(self).modules@ == old(self).modules@,
            r is Ok <==> (ast is None || crate::infer::annotation_ok(*old(self), ast->0, true, fuel as nat)),
            ast is None ==> r == Ok::<Ty, TypeError>(Ty::Var(old(self).subst.binds@.len() as usize)),
            crate::types::absorbs(final(self).subst.binds@, old(self).subst.binds@),
            final(self).types@ == old(self).types@,
            final(self).aliases@ == old(self).aliases@,
    {
        match ast {
            Some(a) => self.hydrate(a, true, fuel),
            None => Ok(self.fresh_var()),
        }
    }

    /// Checks the functions and constants of a module, group by group in
    /// dependency order; each group is generalised once checked.
    #[verifier::rlimit(100)]
    #[verifier::spinoff_prover]
    fn check_values(
        &mut self,
        defs: &Vec<Definition>,
        internal_module: bool,
        target: &Target,
        support: &TargetSupport,
        defined: &mut Vec<usize>,
        errors: &mut Vec<TypeError>,
    )
        requires
            old(self).wf(),
        ensures
            final(self).wf(),
            publicity_kept(old(self).scope_values@, final(self).scope_values@),
            internal_module && none_public(old(self).scope_values@, old(defined)@) ==> none_public(
                final(self).scope_values@,
                final(defined)@,
            ),
            closed_slots(old(self).scope_values@, old(defined)@) ==> closed_slots(
                final(self).scope_values@,
                final(defined)@,
            ),
            final(self).scope_types@ == old(self).scope_types@,
            final(self).modules@ == old(self).modules@,
            final(self).types@ == old(self).types@,
            final(self).aliases@ == old(self).aliases@,
            old(errors)@.len() <= final(errors)@.len(),
            final(errors)@.len() == old(errors)@.len() ==> forall|d: int|
                0 <= d < defs@.len() ==> #[trigger] member_typed(
                    final(self).subst.binds@,
                    old(self).types@,
                    old(self).aliases@,
                    old(self).modules@,
                    defs@[d],
                ),
    {
        let ghost ty0 = self.types@;
        let ghost al0 = self.aliases@;
        let ghost md0 = self.modules@;
        let ghost e0len = errors@.len();
        let ghost sv0 = self.scope_values@;
        let ghost d0 = defined@;
        let ghost cl0 = closed_slots(sv0, d0);
        let nd = defs.len();
        let mut vals: Vec<usize> = Vec::new();
        let mut names: Vec<Vec<char>> = Vec::new();
        let mut d: usize = 0;
        while d < nd
            invariant
                nd == defs@.len(),
                d <= nd,
                vals@.len() == names@.len(),
                forall|k: int| 0 <= k < vals@.len() ==> #[trigger] vals@[k] < nd,
                forall|d2: int|
                    #![trigger defs@[d2]]
                    0 <= d2 < d && (defs@[d2] is Function || defs@[d2] is Constant) ==> exists|x: int|
                        0 <= x < vals@.len() && vals@[x] == d2,
            decreases nd - d,
        {
            match &defs[d] {
                Definition::Function { name, .. } | Definition::Constant { name, .. } => {
                    let ghost vb = vals@;
                    vals.push(d);
                    names.push(copy_name(name));
                    proof {
                        assert(vals@[vb.len() as int] == d);
                        assert forall|x: int| 0 <= x < vb.len() implies vals@[x] == vb[x] by {}
                    }
                },
                _ => {},
            }
            proof {
                assert forall|d2: int|
                    #![trigger defs@[d2]]
                    0 <= d2 < d + 1 && (defs@[d2] is Function || defs@[d2] is Constant) implies exists|x: int|
                        0 <= x < vals@.len() && vals@[x] == d2 by {
                    if d2 == d {
                        assert(vals@[vals@.len() - 1] == d2);
                    } else {
                        let x = choose|x: int| 0 <= x < vals@.len() && vals@[x] == d2;
                    }
                }
            }
            d = d + 1;
        }
        let n = vals.len();
        let mut adj: Vec<Vec<bool>> = Vec::new();
        let mut i: usize = 0;
        while i < n
            invariant
                n == vals@.len(),
                nd == defs@.len(),
                i <= n,
                adj@.len() == i,
                forall|k: int| 0 <= k < i ==> #[trigger] adj@[k]@.len() == n,
                forall|k: int| 0 <= k < vals@.len() ==> #[trigger] vals@[k] < nd,
            decreases n - i,
        {
            let mut refs: Vec<Vec<char>> = Vec::new();
            match &defs[vals[i]] {
                Definition::Function { body: Some(stmts), .. } => {
                    collect_refs_stmts(stmts, &mut refs, crate::parser::parse_depth());
                },
                Definition::Constant { value, .. } => {
                    collect_refs(value, &mut refs, crate::parser::parse_depth());
                },
                _ => {},
            }
            let mut row: Vec<bool> = Vec::new();
            let mut j: usize = 0;
            while j < n
                invariant
                    n == names@.len(),
                    j <= n,
                    row@.len() == j,
                decreases n - j,
            {
                row.push(contains_name(&refs, &names[j]));
                j = j + 1;
            }
            adj.push(row);
            i = i + 1;
        }
        let reach = reachability(&adj);
        let mut done: Vec<bool> = Vec::new();
        let mut k: usize = 0;
        while k < n
            invariant
                k <= n,
                done@.len() == k,
                forall|x: int| 0 <= x < k ==> !(#[trigger] done@[x]),
            decreases n - k,
        {
            done.push(false);
            k = k + 1;
        }
        proof {
            lemma_count_true_none(done@);
        }
        let mut rounds: usize = 0;
        while rounds < n
            invariant
                self.wf(),
                cl0 ==> closed_slots(self.scope_values@, defined@),
                self.scope_types@ == old(self).scope_types@,
                self.modules@ == old(self).modules@,
                publicity_kept(sv0, self.scope_values@),
                internal_module && none_public(sv0, d0) ==> none_public(
                    self.scope_values@,
                    defined@,
                ),
                n == vals@.len(),
                nd == defs@.len(),
                rounds <= n,
                done@.len() == n,
                reach@.len() == n,
                forall|x: int| 0 <= x < n ==> #[trigger] reach@[x]@.len() == n,
                forall|x: int| 0 <= x < vals@.len() ==> #[trigger] vals@[x] < nd,
                self.types@ == ty0,
                self.aliases@ == al0,
                self.modules@ == md0,
                e0len <= errors@.len(),
                count_true(done@) >= rounds,
                errors@.len() == e0len ==> forall|x: int|
                    0 <= x < n && #[trigger] done@[x] ==> member_typed(self.subst.binds@, ty0, al0, md0, defs@[vals@[x] as int]),
            decreases n - rounds,
        {
            // Find a member whose outside dependencies are all checked.
            let mut pick: Option<usize> = None;
            let mut a: usize = 0;
            while a < n && pick.is_none()
                invariant
                    n == vals@.len(),
                    a <= n,
                    done@.len() == n,
                    reach@.len() == n,
                    forall|x: int| 0 <= x < n ==> #[trigger] reach@[x]@.len() == n,
                    pick matches Some(p) ==> p < n && !done@[p as int],
                decreases n - a,
            {
                if !done[a] {
                    let mut ready = true;
                    let mut b: usize = 0;
                    while b < n
                        invariant
                            a < n,
                            b <= n,
                            done@.len() == n,
                            reach@.len() == n,
                            forall|x: int| 0 <= x < n ==> #[trigger] reach@[x]@.len() == n,
                        decreases n - b,
                    {
                        if b != a && reach[a][b] && !reach[b][a] && !done[b] {
                            ready = false;
                        }
                        b = b + 1;
                    }
                    if ready {
                        pick = Some(a);
                    }
                }
                a = a + 1;
            }
            if pick.is_none() {
                let mut a2: usize = 0;
                while a2 < n
                    invariant
                        a2 <= n,
                        done@.len() == n,
                        pick matches Some(p) ==> p < n && !done@[p as int],
                        pick is None ==> forall|x: int| 0 <= x < a2 ==> #[trigger] done@[x],
                    decreases n - a2,
                {
                    if !done[a2] {
                        pick = Some(a2);
                        break ;
                    }
                    a2 = a2 + 1;
                }
            }
            let p = match pick {
                Some(p) => p,
                None => {
                    break ;
                },
            };
            let ghost done0 = done@;
            let mut group: Vec<usize> = Vec::new();
            let mut b: usize = 0;
            while b < n
                invariant
                    p < n,
                    b <= n,
                    done@.len() == n,
                    reach@.len() == n,
                    forall|x: int| 0 <= x < n ==> #[trigger] reach@[x]@.len() == n,
                    forall|x: int| 0 <= x < group@.len() ==> #[trigger] group@[x] < n,
                    !done@[p as int],
                    p < b ==> exists|g2: int| 0 <= g2 < group@.len() && group@[g2] == p,
                decreases n - b,
            {
                let ghost gb = group@;
                if !done[b] && (b == p || (reach[p][b] && reach[b][p])) {
                    group.push(b);
                    proof {
                        assert forall|x: int| 0 <= x < gb.len() implies group@[x] == gb[x] by {}
                        if b == p {
                            assert(group@[gb.len() as int] == p);
                        }
                    }
                }
                b = b + 1;
            }
            let mut prelims: Vec<Prelim> = Vec::new();
            let ghost d_round = defined@;
            assert(defined@ =~= d_round + prelim_slots(prelims@));
            let mut g: usize = 0;
            while g < group.len()
                invariant
                    self.wf(),
                    cl0 ==> closed_slots(self.scope_values@, d_round),
                    defined@ == d_round + prelim_slots(prelims@),
                    forall|x: int|
                        0 <= x < prelims@.len() ==> (#[trigger] prelims@[x]).slot
                            < self.scope_values@.len(),
                    self.scope_types@ == old(self).scope_types@,
                    self.modules@ == old(self).modules@,
                    publicity_kept(sv0, self.scope_values@),
                    internal_module && none_public(sv0, d0) ==> none_public(
                        self.scope_values@,
                        defined@,
                    ),
                    g <= group@.len(),
                    prelims@.len() == g,
                    n == vals@.len(),
                    nd == defs@.len(),
                    forall|x: int| 0 <= x < group@.len() ==> #[trigger] group@[x] < n,
                    forall|x: int| 0 <= x < vals@.len() ==> #[trigger] vals@[x] < nd,
                    done@ == done0,
                    self.types@ == ty0,
                    self.aliases@ == al0,
                    e0len <= errors@.len(),
                    errors@.len() == e0len ==> forall|x: int|
                        0 <= x < n && #[trigger] done@[x] ==> member_typed(self.subst.binds@, ty0, al0, md0, defs@[vals@[x] as int]),
                decreases group@.len() - g,
            {
                let di = vals[group[g]];
                let ghost before = prelims@;
                let ghost s_b = self.subst.binds@;
                let pr = self.prepare_member(&defs[di], internal_module, errors);
                proof {
                    assert forall|x: int| 0 <= x < n && #[trigger] done@[x] && errors@.len() == e0len implies member_typed(self.subst.binds@, ty0, al0, md0, defs@[vals@[x] as int]) by {
                        lemma_member_typed_refine(self.subst.binds@, s_b, ty0, al0, md0, defs@[vals@[x] as int]);
                    }
                }
                defined.push(pr.slot);
                prelims.push(pr);
                assert(prelim_slots(prelims@) =~= prelim_slots(before).push(prelims@.last().slot));
                g = g + 1;
            }
            let mut slots: Vec<usize> = Vec::new();
            assert(defined@ =~= d_round + slots@ + prelim_slots(prelims@));
            let mut g: usize = 0;
            while g < group.len() && prelims.len() > 0
                invariant
                    self.wf(),
                    cl0 ==> closed_slots(self.scope_values@, d_round),
                    defined@ == d_round + slots@ + prelim_slots(prelims@),
                    prelims@.len() + g == group@.len(),
                    forall|x: int|
                        0 <= x < prelims@.len() ==> (#[trigger] prelims@[x]).slot
                            < self.scope_values@.len(),
                    forall|x: int| 0 <= x < slots@.len() ==> #[trigger] slots@[x] < self.scope_values@.len(),
                    self.scope_types@ == old(self).scope_types@,
                    self.modules@ == old(self).modules@,
                    publicity_kept(sv0, self.scope_values@),
                    internal_module && none_public(sv0, d0) ==> none_public(
                        self.scope_values@,
                        defined@,
                    ),
                    g <= group@.len(),
                    n == vals@.len(),
                    nd == defs@.len(),
                    forall|x: int| 0 <= x < group@.len() ==> #[trigger] group@[x] < n,
                    forall|x: int| 0 <= x < vals@.len() ==> #[trigger] vals@[x] < nd,
                    done@ == done0,
                    self.types@ == ty0,
                    self.aliases@ == al0,
                    e0len <= errors@.len(),
                    errors@.len() == e0len ==> forall|x: int|
                        0 <= x < n && #[trigger] done@[x] ==> member_typed(self.subst.binds@, ty0, al0, md0, defs@[vals@[x] as int]),
                    errors@.len() == e0len ==> forall|g2: int|
                        0 <= g2 < g ==> member_typed(
                            self.subst.binds@,
                            ty0,
                            al0,
                            md0,
                            defs@[vals@[#[trigger] group@[g2] as int] as int],
                        ),
                decreases group@.len() - g,
            {
                let di = vals[group[g]];
                let ghost before = prelims@;
                let ghost slots_before = slots@;
                let ghost s_b = self.subst.binds@;
                let pr = prelims.remove(0);
                assert(prelim_slots(before) =~= seq![pr.slot] + prelim_slots(prelims@));
                slots.push(pr.slot);
                assert(d_round + slots@ + prelim_slots(prelims@) =~= d_round + slots_before
                    + prelim_slots(before));
                self.check_member(&defs[di], pr, target, support, errors);
                proof {
                    assert forall|x: int| 0 <= x < n && #[trigger] done@[x] && errors@.len() == e0len implies member_typed(self.subst.binds@, ty0, al0, md0, defs@[vals@[x] as int]) by {
                        lemma_member_typed_refine(self.subst.binds@, s_b, ty0, al0, md0, defs@[vals@[x] as int]);
                    }
                    assert forall|g2: int| 0 <= g2 < g + 1 && errors@.len() == e0len implies member_typed(
                        self.subst.binds@,
                        ty0,
                        al0,
                        md0,
                        defs@[vals@[#[trigger] group@[g2] as int] as int],
                    ) by {
                        if g2 < g {
                            lemma_member_typed_refine(
                                self.subst.binds@,
                                s_b,
                                ty0,
                                al0,
                                md0,
                                defs@[vals@[group@[g2] as int] as int],
                            );
                        }
                    }
                }
                g = g + 1;
            }
            assert(prelims@.len() == 0);
            assert(defined@ =~= d_round + slots@);
            let ghost s_gen = self.subst;
            let mut s: usize = 0;
            while s < slots.len()
                invariant
                    self.wf(),
                    cl0 ==> closed_slots(self.scope_values@, d_round),
                    defined@ == d_round + slots@,
                    forall|x: int| 0 <= x < slots@.len() ==> #[trigger] slots@[x] < self.scope_values@.len(),
                    forall|x: int|
                        0 <= x < s ==> crate::types::no_vars(
                            self.scope_values@[(#[trigger] slots@[x]) as int].scheme,
                        ),
                    self.scope_types@ == old(self).scope_types@,
                    self.modules@ == old(self).modules@,
                    publicity_kept(sv0, self.scope_values@),
                    internal_module && none_public(sv0, d0) ==> none_public(
                        self.scope_values@,
                        defined@,
                    ),
                    s <= slots@.len(),
                    self.subst == s_gen,
                    self.types@ == ty0,
                    self.aliases@ == al0,
                decreases slots@.len() - s,
            {
                self.generalize_slot(slots[s]);
                s = s + 1;
            }
            proof {
                if cl0 {
                    assert forall|k: int| 0 <= k < defined@.len() implies (defined@[k] as int)
                        < self.scope_values@.len() && crate::types::no_vars(
                        (#[trigger] self.scope_values@[defined@[k] as int]).scheme,
                    ) by {
                        if k >= d_round.len() {
                            assert(defined@[k] == slots@[k - d_round.len()]);
                        }
                    }
                }
            }
            proof {
                lemma_count_true_set(done@, p as int);
            }
            done.set(p, true);
            let mut g: usize = 0;
            while g < group.len()
                invariant
                    g <= group@.len(),
                    done@.len() == n,
                    forall|x: int| 0 <= x < group@.len() ==> #[trigger] group@[x] < n,
                    count_true(done@) >= rounds + 1,
                    forall|x: int|
                        0 <= x < n && #[trigger] done@[x] ==> done0[x] || x == p || exists|g2: int|
                            0 <= g2 < group@.len() && group@[g2] == x,
                decreases group@.len() - g,
            {
                proof {
                    lemma_count_true_set(done@, group@[g as int] as int);
                }
                done.set(group[g], true);
                g = g + 1;
            }
            proof {
                let g_p = choose|g2: int| 0 <= g2 < group@.len() && group@[g2] == p;
                assert forall|x: int| 0 <= x < n && #[trigger] done@[x] && errors@.len() == e0len implies member_typed(self.subst.binds@, ty0, al0, md0, defs@[vals@[x] as int]) by {
                    if !done0[x] {
                        if x == p {
                            assert(group@[g_p] == x);
                        } else {
                            let g2 = choose|g2: int| 0 <= g2 < group@.len() && group@[g2] == x;
                            assert(group@[g2] == x);
                        }
                    }
                }
            }
            rounds = rounds + 1;
        }
        proof {
            if rounds >= n {
                lemma_count_true_full(done@);
            }
            assert forall|d: int| 0 <= d < defs@.len() && errors@.len() == e0len implies #[trigger] member_typed(
                self.subst.binds@,
                ty0,
                al0,
                md0,
                defs@[d],
            ) by {
                if defs@[d] is Function || defs@[d] is Constant {
                    let x = choose|x: int| 0 <= x < vals@.len() && vals@[x] == d;
                    assert(done@[x]);
                }
            }
        }
    }
}

} // verus!
