use vstd::prelude::*;
use crate::ast::{Arg, BinOp, Clause, Expr, FnParam, Pattern, SegKind, Stmt};
use crate::env::{fn_type, tuple_type, Local};
use crate::types::{absorbs, apply, Ty};

verus! {

/// What the module level names of a module being checked refer to: the
/// values in scope, the named types, the module aliases and the modules
/// that can be imported.
pub struct Env {
    pub vals: Seq<crate::env::ValueInfo>,
    pub types: Seq<crate::env::TypeCon>,
    pub aliases: Seq<(Vec<char>, usize)>,
    pub modules: Seq<crate::env::ModuleInterface>,
}

/// The local variables of a checker as a typing context: each name with its
/// type, the innermost binding last.
pub open spec fn bindings(ls: Seq<Local>) -> Seq<(Seq<char>, Ty)> {
    ls.map_values(|l: Local| (l.name@, l.ty))
}

/// Entry `j` of `vals` is the module level value that `name` refers to:
/// the last one of that name.
pub open spec fn last_value(vals: Seq<crate::env::ValueInfo>, name: Seq<char>, j: int) -> bool {
    &&& 0 <= j < vals.len()
    &&& vals[j].name@ == name
    &&& forall|k: int| j < k < vals.len() ==> vals[k].name@ != name
}

/// Under `s`, a reference to the module level value `v` can have a type
/// that `s` makes `ts`: an instance of its type scheme, its quantified
/// variables replaced by any types, or its type as it stands while it is
/// not generalised yet.
pub open spec fn value_fits(s: Seq<Option<Ty>>, v: crate::env::ValueInfo, ts: Ty) -> bool {
    if v.generalized {
        exists|f: spec_fn(usize) -> Ty| ts == apply(s, #[trigger] crate::env::gens_by(v.scheme, f))
    } else {
        ts == apply(s, v.scheme)
    }
}

/// Entry `i` of `ts` is the last type entry named `name`.
pub open spec fn last_entry(ts: Seq<crate::env::TypeEntry>, name: Seq<char>, i: int) -> bool {
    &&& 0 <= i < ts.len()
    &&& ts[i].name@ == name
    &&& forall|k: int| i < k < ts.len() ==> ts[k].name@ != name
}

/// There is one last value of a name.
pub proof fn lemma_last_value_unique(vals: Seq<crate::env::ValueInfo>, name: Seq<char>, j1: int, j2: int)
    requires
        last_value(vals, name, j1),
        last_value(vals, name, j2),
    ensures
        j1 == j2,
{
    if j1 < j2 {
        assert(vals[j2].name@ == name);
    } else if j2 < j1 {
        assert(vals[j1].name@ == name);
    }
}

/// There is one last type entry of a name.
pub proof fn lemma_last_entry_unique(ts: Seq<crate::env::TypeEntry>, name: Seq<char>, i1: int, i2: int)
    requires
        last_entry(ts, name, i1),
        last_entry(ts, name, i2),
    ensures
        i1 == i2,
{
    if i1 < i2 {
        assert(ts[i2].name@ == name);
    } else if i2 < i1 {
        assert(ts[i1].name@ == name);
    }
}

/// There is one last alias of a name.
pub proof fn lemma_last_alias_unique(aliases: Seq<(Vec<char>, usize)>, name: Seq<char>, a1: int, a2: int)
    requires
        last_alias(aliases, name, a1),
        last_alias(aliases, name, a2),
    ensures
        a1 == a2,
{
    if a1 < a2 {
        assert(aliases[a2].0@ == name);
    } else if a2 < a1 {
        assert(aliases[a1].0@ == name);
    }
}

/// The last value named `name` in `vals` exists and may be imported.
pub open spec fn importable_value(vals: Seq<crate::env::ValueInfo>, name: Seq<char>) -> bool {
    exists|j: int| #[trigger] last_value(vals, name, j) && vals[j].publicity.importable()
}

/// The last type entry named `name` in `ts` exists, may be imported and
/// stands for `k`.
pub open spec fn importable_type(ts: Seq<crate::env::TypeEntry>, name: Seq<char>, k: crate::env::TypeRef) -> bool {
    exists|i: int| #[trigger] last_entry(ts, name, i) && ts[i].publicity.importable() && ts[i].kind == k
}

/// The module that the alias `m` names, when `m` names one (`names_module`).
pub open spec fn aliased_module(env: Env, m: Seq<char>) -> crate::env::ModuleInterface {
    let a = choose|a: int| last_alias(env.aliases, m, a) && env.aliases[a].1 < env.modules.len();
    env.modules[env.aliases[a].1 as int]
}

/// Entry `a` of `aliases` is the last module alias named `name`.
pub open spec fn last_alias(aliases: Seq<(Vec<char>, usize)>, name: Seq<char>, a: int) -> bool {
    &&& 0 <= a < aliases.len()
    &&& aliases[a].0@ == name
    &&& forall|k: int| a < k < aliases.len() ==> aliases[k].0@ != name
}

/// `e` is a name that no local variable of `ctx` shadows and whose last
/// module alias names a module of `env`: `e.label` then refers to a value
/// of that module.
pub open spec fn names_module(env: Env, ctx: Seq<(Seq<char>, Ty)>, e: Expr) -> bool {
    &&& e is Var
    &&& forall|k: int| 0 <= k < ctx.len() ==> (#[trigger] ctx[k]).0 != e->Var_0@
    &&& exists|a: int| #[trigger] last_alias(env.aliases, e->Var_0@, a) && env.aliases[a].1 < env.modules.len()
}

/// Under `s`, a value of type `rt` has a field labelled `label` whose type
/// `s` makes `ts`: `rt` is a named type of `types` applied to arguments, and
/// a variant of that type has a field of that label whose declared type,
/// with the arguments put for the type's parameters, is `ts`.
pub open spec fn field_typed(
    s: Seq<Option<Ty>>,
    types: Seq<crate::env::TypeCon>,
    rt: Ty,
    label: Seq<char>,
    ts: Ty,
) -> bool {
    exists|c: usize, args: Seq<Ty>, k: int, i: int|
        #![trigger crate::env::applied(Ty::Con(c), args), types[c as int].variants@[k].fields@[i]]
        {
            &&& c < types.len()
            &&& 0 <= k < types[c as int].variants@.len()
            &&& 0 <= i < types[c as int].variants@[k].fields@.len()
            &&& types[c as int].variants@[k].fields@[i].label is Some
            &&& types[c as int].variants@[k].fields@[i].label->0@ == label
            &&& apply(s, rt) == apply(s, crate::env::applied(Ty::Con(c), args))
            &&& ts == apply(s, crate::env::gens_replaced(types[c as int].variants@[k].fields@[i].ty, args))
        }
}

/// The module level value that the constructor of a record update names: a
/// name the last value of that name in scope, `m.name` the last value of
/// that name in the module `m` names.
pub open spec fn named_value(env: Env, ctx: Seq<(Seq<char>, Ty)>, ctor: Expr) -> Option<
    crate::env::ValueInfo,
> {
    match ctor {
        Expr::Var(n) => if exists|j: int| last_value(env.vals, n@, j) {
            Some(env.vals[choose|j: int| last_value(env.vals, n@, j)])
        } else {
            None
        },
        Expr::Access(m, n) => if names_module(env, ctx, *m) {
            let a = choose|a: int|
                last_alias(env.aliases, m->Var_0@, a) && env.aliases[a].1 < env.modules.len();
            let vs = env.modules[env.aliases[a].1 as int].values@;
            if exists|j: int| last_value(vs, n@, j) {
                Some(vs[choose|j: int| last_value(vs, n@, j)])
            } else {
                None
            }
        } else {
            None
        },
        _ => None,
    }
}

/// The name of a constructor written `name` or `module.name`, as an
/// expression.
pub open spec fn ctor_name(module: Option<Vec<char>>, name: Vec<char>) -> Expr {
    match module {
        Some(m) => Expr::Access(Box::new(Expr::Var(m)), name),
        None => Expr::Var(name),
    }
}

/// Under `s`, the type `t` is an instance of the type scheme `scheme`.
pub open spec fn instance_of(s: Seq<Option<Ty>>, scheme: Ty, t: Ty) -> bool {
    exists|f: spec_fn(usize) -> Ty| apply(s, t) == apply(s, #[trigger] crate::env::gens_by(scheme, f))
}

/// Some argument of a record update sets the field at position `q` of a
/// constructor with the labels `labels`.
pub open spec fn updated_at(labels: Seq<Option<Vec<char>>>, args: Seq<Arg>, q: int) -> bool {
    exists|i: int|
        0 <= i < args.len() && (#[trigger] args[i]).label is Some && crate::env::first_label(
            labels,
            args[i].label->0@,
            q,
        )
}

/// Entry `i` of `ctx` is the innermost binding of `name`.
pub open spec fn innermost(ctx: Seq<(Seq<char>, Ty)>, name: Seq<char>, i: int) -> bool {
    &&& 0 <= i < ctx.len()
    &&& ctx[i].0 == name
    &&& forall|k: int| i < k < ctx.len() ==> ctx[k].0 != name
}

/// The type both operands of a binary operator have, where the operator
/// fixes it; the operands of `==` and `!=` only have to agree.
pub open spec fn operand_type(op: BinOp) -> Option<Ty> {
    match op {
        BinOp::Eq | BinOp::NotEq => None,
        BinOp::And | BinOp::Or => Some(Ty::Con(3)),
        BinOp::Concat => Some(Ty::Con(2)),
        BinOp::LtFloat | BinOp::GtFloat | BinOp::LtEqFloat | BinOp::GtEqFloat | BinOp::AddFloat
        | BinOp::SubFloat | BinOp::MulFloat | BinOp::DivFloat => Some(Ty::Con(1)),
        _ => Some(Ty::Con(0)),
    }
}

/// The type of what a binary operator gives: `Bool` for the logical
/// operators and the comparisons, `String` for `<>`, `Float` for the float
/// arithmetic and `Int` for the integer arithmetic.
pub open spec fn binop_result(op: BinOp) -> Ty {
    match op {
        BinOp::Concat => Ty::Con(2),
        BinOp::AddInt | BinOp::SubInt | BinOp::MulInt | BinOp::DivInt | BinOp::RemInt => Ty::Con(0),
        BinOp::AddFloat | BinOp::SubFloat | BinOp::MulFloat | BinOp::DivFloat => Ty::Con(1),
        _ => Ty::Con(3),
    }
}

/// The type a bit array segment of the given kind holds.
pub open spec fn segment_type(k: SegKind) -> Ty {
    match k {
        SegKind::Int => Ty::Con(0),
        SegKind::Float => Ty::Con(1),
        SegKind::Bits => Ty::Con(7),
        SegKind::Utf8 => Ty::Con(2),
        SegKind::Codepoint => Ty::Con(8),
    }
}

/// `List(x)`.
pub open spec fn list_of(x: Ty) -> Ty {
    Ty::App(Box::new(Ty::Con(5)), Box::new(x))
}

/// `ctx` with the first `n` named parameters bound to their types.
pub open spec fn bind_params(
    ctx: Seq<(Seq<char>, Ty)>,
    params: Seq<FnParam>,
    ps: Seq<Ty>,
    n: nat,
) -> Seq<(Seq<char>, Ty)>
    decreases n,
{
    if n == 0 {
        ctx
    } else {
        let inner = bind_params(ctx, params, ps, (n - 1) as nat);
        match params[n - 1].name {
            Some(x) => inner.push((x@, ps[n - 1])),
            None => inner,
        }
    }
}

/// Under the substitution `s`, the expression `e` has the type `t` in the
/// context `ctx` of local variables, with `env` the module level names in
/// scope. A local variable has the type of its innermost binding, and
/// another name one that fits the last value of that name in `env`.
/// Literals, operators, tuples, lists, tuple indexing, blocks, anonymous
/// functions, calls (each argument typed by the parameter it is placed at,
/// and unlabelled arguments placed in order), pipes, `todo` and `panic`
/// messages, bit arrays and case expressions are described: the patterns
/// of a case clause match the types of the subjects, and its guard and body
/// are typed in an extension of `ctx` by what the patterns bind. A
/// qualified name (`module.name`) has a type that fits the last value of
/// that name in the module its alias names, and a record access `r.label`
/// the type of a field of that label of `r`'s named type. A record update
/// `C(..base, label: value)` has the return type of an instance of the
/// constructor `C`'s type whose parameters take the values: the base has
/// the return type of another instance, each labelled value the type of the
/// first parameter with its label, and each parameter that no value sets
/// the same type in both instances. A hole `_` outside a call has no type.
pub open spec fn wt(
    s: Seq<Option<Ty>>,
    env: Env,
    ctx: Seq<(Seq<char>, Ty)>,
    e: Expr,
    t: Ty,
) -> bool
    decreases e, 1nat,
{
    let ts = apply(s, t);
    match e {
        Expr::Int => ts == Ty::Con(0),
        Expr::Float => ts == Ty::Con(1),
        Expr::Str => ts == Ty::Con(2),
        Expr::Var(x) => (forall|i: int| #[trigger] innermost(ctx, x@, i) ==> ts == apply(s, ctx[i].1))
            && ((forall|k: int| 0 <= k < ctx.len() ==> (#[trigger] ctx[k]).0 != x@) ==> forall|j: int|
            #[trigger] last_value(env.vals, x@, j) ==> value_fits(s, env.vals[j], ts)),
        Expr::NegInt(a) => ts == Ty::Con(0) && wt(s, env, ctx, *a, Ty::Con(0)),
        Expr::Not(a) => ts == Ty::Con(3) && wt(s, env, ctx, *a, Ty::Con(3)),
        Expr::Bin(op, a, b) => ts == binop_result(op) && match operand_type(op) {
            Some(o) => wt(s, env, ctx, *a, o) && wt(s, env, ctx, *b, o),
            None => exists|x: Ty|
                #![trigger wt(s, env, ctx, *a, x)]
                #![trigger apply(s, x)]
                wt(s, env, ctx, *a, x) && wt(s, env, ctx, *b, x),
        },
        Expr::Tuple(es) => exists|elems: Seq<Ty>|
            #![trigger tuple_type(elems)]
            elems.len() == es@.len() && ts == apply(s, tuple_type(elems)) && forall|i: int|
                0 <= i < es@.len() ==> wt(s, env, ctx, #[trigger] es@[i], elems[i]),
        Expr::List(es, tail) => exists|x: Ty|
            #![trigger list_of(x)]
            ts == apply(s, list_of(x)) && (forall|i: int|
                0 <= i < es@.len() ==> wt(s, env, ctx, #[trigger] es@[i], x)) && (tail matches Some(
                tl,
            ) ==> wt(s, env, ctx, *tl, list_of(x))),
        Expr::TupleIndex(inner, k) => exists|elems: Seq<Ty>|
            #![trigger tuple_type(elems)]
            k < elems.len() && ts == apply(s, elems[k as int]) && wt(
                s,
                env,
                ctx,
                *inner,
                tuple_type(elems),
            ),
        Expr::Block(stmts) => wt_stmts(s, env, ctx, stmts@, t),
        Expr::Fn(params, _, body) => exists|ps: Seq<Ty>, r: Ty|
            #![trigger fn_type(ps, r)]
            ps.len() == params@.len() && ts == apply(s, fn_type(ps, r)) && wt_stmts(
                s,
                env,
                bind_params(ctx, params@, ps, params@.len()),
                body@,
                r,
            ),
        Expr::Call(f, args) => exists|ps: Seq<Ty>, r: Ty, slots: Seq<Option<usize>>|
            #![trigger fn_type(ps, r), slots.len()]
            ps.len() == slots.len() && apply(s, r) == ts && wt(s, env, ctx, *f, fn_type(ps, r))
                && (forall|q: int|
                0 <= q < slots.len() ==> (#[trigger] slots[q] matches Some(j) ==> j < args@.len() && wt(
                    s,
                    env,
                    ctx,
                    args@[j as int].value,
                    ps[q],
                ))) && (forall|a: int| 0 <= a < args@.len() ==> #[trigger] crate::args::placed(slots, a))
                && ((forall|i: int| 0 <= i < args@.len() ==> (#[trigger] args@[i]).label is None)
                ==> slots.len() == args@.len() && forall|q: int|
                0 <= q < slots.len() ==> #[trigger] slots[q] == Some(q as usize)),
        Expr::Todo(msg) => msg matches Some(m) ==> wt(s, env, ctx, *m, Ty::Con(2)),
        Expr::Panic(msg) => msg matches Some(m) ==> wt(s, env, ctx, *m, Ty::Con(2)),
        Expr::BitArray(segs) => ts == Ty::Con(7) && forall|i: int|
            0 <= i < segs@.len() ==> wt(
                s,
                env,
                ctx,
                (#[trigger] segs@[i]).value,
                segment_type(segs@[i].kind),
            ),
        Expr::Case(subjects, clauses) => exists|stys: Seq<Ty>|
            #![trigger stys.len()]
            stys.len() == subjects@.len() && (forall|i: int|
                0 <= i < subjects@.len() ==> wt(s, env, ctx, #[trigger] subjects@[i], stys[i])) && forall|
                c: int,
            |
                0 <= c < clauses@.len() ==> wt_clause(s, env, ctx, #[trigger] clauses@[c], stys, ts),
        Expr::Pipe(_, _) => pipe_ok(s, env, ctx, e, ts),
        Expr::Access(inner, label) => if names_module(env, ctx, *inner) {
            forall|a: int, j: int|
                #[trigger] last_alias(env.aliases, inner->Var_0@, a) && #[trigger] last_value(
                    env.modules[env.aliases[a].1 as int].values@,
                    label@,
                    j,
                ) ==> value_fits(s, env.modules[env.aliases[a].1 as int].values@[j], ts)
        } else {
            exists|rt: Ty|
                #![trigger wt(s, env, ctx, *inner, rt)]
                #![trigger field_typed(s, env.types, rt, label@, ts)]
                wt(s, env, ctx, *inner, rt) && field_typed(s, env.types, rt, label@, ts)
        },
        Expr::Update(ctor, base, args) => named_value(env, ctx, *ctor) matches Some(v) && exists|
            ps: Seq<Ty>,
            r: Ty,
            ops: Seq<Ty>,
            or: Ty,
        |
            #![trigger fn_type(ps, r), fn_type(ops, or)]
            {
                &&& ts == apply(s, r)
                &&& instance_of(s, v.scheme, fn_type(ps, r))
                &&& instance_of(s, v.scheme, fn_type(ops, or))
                &&& wt(s, env, ctx, *base, or)
                &&& forall|i: int|
                    0 <= i < args@.len() ==> (#[trigger] args@[i]).label is Some && (exists|q: int|
                        crate::env::first_label(v.labels@, args@[i].label->0@, q)) && forall|q: int|
                        crate::env::first_label(v.labels@, args@[i].label->0@, q) ==> q < ps.len()
                            && wt(s, env, ctx, args@[i].value, ps[q])
                &&& forall|q: int|
                    0 <= q < ps.len() && q < ops.len() && !updated_at(v.labels@, args@, q) ==> apply(
                        s,
                        #[trigger] ps[q],
                    ) == apply(s, ops[q])
            },
        Expr::Hole => false,
    }
}

/// Under `s`, the pipe `e` (`l |> r`) gives a value whose type `s` makes
/// `ts`: `l` has a type, and `r` takes it, as the first argument of a call
/// with unlabelled arguments, as the argument of what such a call returns,
/// or as the argument of the function `r` is.
pub open spec fn pipe_ok(
    s: Seq<Option<Ty>>,
    env: Env,
    ctx: Seq<(Seq<char>, Ty)>,
    e: Expr,
    ts: Ty,
) -> bool
    decreases e, 0nat,
{
    match e {
        Expr::Pipe(l, r) => exists|xl: Ty|
            #![trigger wt(s, env, ctx, *l, xl)]
            #![trigger apply(s, xl)]
            wt(s, env, ctx, *l, xl) && match *r {
                Expr::Call(_, _) => pipe_call_ok(s, env, ctx, *r, xl, ts),
                _ => pipe_fn_ok(s, env, ctx, *r, xl, ts),
            },
        _ => false,
    }
}

/// Under `s`, the call `r` takes a value of type `xl` piped into it and
/// gives a value whose type `s` makes `ts`.
pub open spec fn pipe_call_ok(
    s: Seq<Option<Ty>>,
    env: Env,
    ctx: Seq<(Seq<char>, Ty)>,
    r: Expr,
    xl: Ty,
    ts: Ty,
) -> bool
    decreases r, 2nat,
{
    match r {
        Expr::Call(f, args) => (forall|i: int| 0 <= i < args@.len() ==> (#[trigger] args@[i]).label is None)
            ==> (exists|ps: Seq<Ty>, rt: Ty|
            #![trigger fn_type(ps, rt)]
            ps.len() == args@.len() + 1 && apply(s, ps[0]) == apply(s, xl) && apply(s, rt) == ts && wt(
                s,
                env,
                ctx,
                *f,
                fn_type(ps, rt),
            ) && forall|i: int|
                0 <= i < args@.len() ==> wt(s, env, ctx, (#[trigger] args@[i]).value, ps[i + 1]))
            || (exists|ps: Seq<Ty>, g: Ty, p0: Ty, rt: Ty|
            #![trigger fn_type(ps, g), fn_type(seq![p0], rt)]
            ps.len() == args@.len() && wt(s, env, ctx, *f, fn_type(ps, g)) && (forall|i: int|
                0 <= i < args@.len() ==> wt(s, env, ctx, (#[trigger] args@[i]).value, ps[i])) && apply(s, g)
                == apply(s, fn_type(seq![p0], rt)) && apply(s, p0) == apply(s, xl) && apply(s, rt) == ts),
        _ => false,
    }
}

/// Under `s`, the function `r` takes a value of type `xl` piped into it and
/// gives a value whose type `s` makes `ts`.
pub open spec fn pipe_fn_ok(
    s: Seq<Option<Ty>>,
    env: Env,
    ctx: Seq<(Seq<char>, Ty)>,
    r: Expr,
    xl: Ty,
    ts: Ty,
) -> bool
    decreases r, 2nat,
{
    exists|ft: Ty, p0: Ty, rt: Ty|
        #![trigger fn_type(seq![p0], rt), apply(s, ft)]
        wt(s, env, ctx, r, ft) && apply(s, ft) == apply(s, fn_type(seq![p0], rt)) && apply(s, p0) == apply(s, xl)
            && apply(s, rt) == ts
}

/// Under `s`, the patterns `row` match values of the types `stys`, one
/// after the other, taking the context `cs[0]` through `cs` to its last.
pub open spec fn row_typed(
    s: Seq<Option<Ty>>,
    env: Env,
    cs: Seq<Seq<(Seq<char>, Ty)>>,
    row: Seq<Pattern>,
    stys: Seq<Ty>,
) -> bool {
    &&& row.len() == stys.len()
    &&& cs.len() == row.len() + 1
    &&& forall|k: int| 0 <= k < row.len() ==> wp(s, env, cs[k], #[trigger] row[k], stys[k], cs[k + 1])
}

/// Under `s`, each alternative row of the clause `cl` matches the subjects'
/// types `stys`, starting from an extension of `ctx`.
pub open spec fn rows_typed(
    s: Seq<Option<Ty>>,
    env: Env,
    ctx: Seq<(Seq<char>, Ty)>,
    cl: Clause,
    stys: Seq<Ty>,
) -> bool {
    forall|a: int| 0 <= a < cl.alternatives@.len() ==> #[trigger] row_typed_at(s, env, ctx, cl, stys, a)
}

/// Under `s`, alternative row `a` of the clause `cl` matches the subjects'
/// types `stys`, starting from an extension of `ctx`.
pub open spec fn row_typed_at(
    s: Seq<Option<Ty>>,
    env: Env,
    ctx: Seq<(Seq<char>, Ty)>,
    cl: Clause,
    stys: Seq<Ty>,
    a: int,
) -> bool {
    exists|cs: Seq<Seq<(Seq<char>, Ty)>>|
        #![trigger row_typed(s, env, cs, cl.alternatives@[a]@, stys)]
        ctx.is_prefix_of(cs[0]) && row_typed(s, env, cs, cl.alternatives@[a]@, stys)
}

/// Under `s`, a case clause over subjects of the types `stys` gives a value
/// whose type `s` makes `ts`: each of its alternative rows of patterns
/// matches the subjects' types, starting from an extension of `ctx`; its
/// guard is a `Bool` and its body has that type, both in an extension of
/// `ctx` by what the patterns bind.
pub open spec fn wt_clause(
    s: Seq<Option<Ty>>,
    env: Env,
    ctx: Seq<(Seq<char>, Ty)>,
    cl: Clause,
    stys: Seq<Ty>,
    ts: Ty,
) -> bool
    decreases cl, 1nat,
{
    &&& rows_typed(s, env, ctx, cl, stys)
    &&& exists|cx: Seq<(Seq<char>, Ty)>, xb: Ty|
        #![trigger wt(s, env, cx, cl.body, xb)]
        #![trigger ctx.is_prefix_of(cx), apply(s, xb)]
        ctx.is_prefix_of(cx) && (cl.guard matches Some(g) ==> wt(s, env, cx, g, Ty::Con(3))) && wt(
            s,
            env,
            cx,
            cl.body,
            xb,
        ) && apply(s, xb) == ts
}

/// Under `s`, the statements `stmts` run in `ctx` and the last gives a
/// value of type `t`. A `let` extends the context for the statements after
/// it with what its pattern binds; after a `let assert` whose pattern may
/// fail (neither a variable nor a discard) nothing more is described.
pub open spec fn wt_stmts(
    s: Seq<Option<Ty>>,
    env: Env,
    ctx: Seq<(Seq<char>, Ty)>,
    stmts: Seq<Stmt>,
    t: Ty,
) -> bool
    decreases stmts, 1nat,
{
    if stmts.len() == 0 {
        true
    } else {
        let rest = stmts.drop_first();
        match stmts[0] {
            Stmt::Expr(e) => exists|x: Ty|
                #![trigger wt(s, env, ctx, e, x)]
                #![trigger apply(s, x)]
                wt(s, env, ctx, e, x) && (rest.len() == 0 ==> apply(s, x) == apply(s, t)) && wt_stmts(
                    s,
                    env,
                    ctx,
                    rest,
                    t,
                ),
            Stmt::Let { .. } => exists|x: Ty|
                #![trigger wt(s, env, ctx, stmt_value(stmts[0]), x)]
                #![trigger apply(s, x)]
                wt(s, env, ctx, stmt_value(stmts[0]), x) && (rest.len() == 0 ==> apply(s, x) == apply(s, t))
                    && (keeps_track(stmts[0]) ==> exists|cx: Seq<(Seq<char>, Ty)>|
                    #![trigger steps_to(s, env, ctx, stmts[0], x, cx)]
                    steps_to(s, env, ctx, stmts[0], x, cx) && wt_stmts(s, env, cx, rest, t)),
        }
    }
}

/// `e` has type `t` in `ctx` under every substitution that refines `s`.
pub open spec fn sound_expr(
    s: Seq<Option<Ty>>,
    env: Env,
    ctx: Seq<(Seq<char>, Ty)>,
    e: Expr,
    t: Ty,
) -> bool {
    forall|s2: Seq<Option<Ty>>| #[trigger] absorbs(s2, s) ==> wt(s2, env, ctx, e, t)
}

/// The statements have type `t` in `ctx` under every substitution that
/// refines `s`.
pub open spec fn sound_stmts(
    s: Seq<Option<Ty>>,
    env: Env,
    ctx: Seq<(Seq<char>, Ty)>,
    stmts: Seq<Stmt>,
    t: Ty,
) -> bool {
    forall|s2: Seq<Option<Ty>>| #[trigger] absorbs(s2, s) ==> wt_stmts(s2, env, ctx, stmts, t)
}

/// A typing that holds under a substitution holds under every refinement
/// of it.
pub proof fn lemma_sound_expr_refine(
    s_new: Seq<Option<Ty>>, env: Env,
    s_old: Seq<Option<Ty>>,
    ctx: Seq<(Seq<char>, Ty)>,
    e: Expr,
    t: Ty,
)
    requires
        absorbs(s_new, s_old),
        sound_expr(s_old, env, ctx, e, t),
    ensures
        sound_expr(s_new, env, ctx, e, t),
{
    assert forall|s2: Seq<Option<Ty>>| #[trigger] absorbs(s2, s_new) implies wt(s2, env, ctx, e, t) by {
        crate::types::lemma_absorbs_trans(s2, s_new, s_old);
    }
}

/// As `lemma_sound_expr_refine`, for statements.
pub proof fn lemma_sound_stmts_refine(
    s_new: Seq<Option<Ty>>, env: Env,
    s_old: Seq<Option<Ty>>,
    ctx: Seq<(Seq<char>, Ty)>,
    stmts: Seq<Stmt>,
    t: Ty,
)
    requires
        absorbs(s_new, s_old),
        sound_stmts(s_old, env, ctx, stmts, t),
    ensures
        sound_stmts(s_new, env, ctx, stmts, t),
{
    assert forall|s2: Seq<Option<Ty>>| #[trigger] absorbs(s2, s_new) implies wt_stmts(s2, env, ctx, stmts, t) by {
        crate::types::lemma_absorbs_trans(s2, s_new, s_old);
    }
}

/// A typing depends on the type only through what `s` makes of it.
pub proof fn lemma_wt_respects(
    s: Seq<Option<Ty>>,
    env: Env,
    ctx: Seq<(Seq<char>, Ty)>,
    e: Expr,
    a: Ty,
    b: Ty,
)
    requires
        apply(s, a) == apply(s, b),
    ensures
        wt(s, env, ctx, e, a) == wt(s, env, ctx, e, b),
{
    match e {
        Expr::Block(stmts) => {
            lemma_wt_stmts_respects(s, env, ctx, stmts@, a, b);
        },
        Expr::Var(x) => {
            assert forall|j: int| #[trigger] last_value(env.vals, x@, j) implies value_fits(
                s,
                env.vals[j],
                apply(s, a),
            ) == value_fits(s, env.vals[j], apply(s, b)) by {}
        },
        _ => {},
    }
}

/// As `lemma_wt_respects`, for statements.
pub proof fn lemma_wt_stmts_respects(
    s: Seq<Option<Ty>>,
    env: Env,
    ctx: Seq<(Seq<char>, Ty)>,
    stmts: Seq<Stmt>,
    a: Ty,
    b: Ty,
)
    requires
        apply(s, a) == apply(s, b),
    ensures
        wt_stmts(s, env, ctx, stmts, a) == wt_stmts(s, env, ctx, stmts, b),
    decreases stmts.len(),
{
    if stmts.len() > 0 {
        let rest = stmts.drop_first();
        lemma_wt_stmts_respects(s, env, ctx, rest, a, b);
        assert forall|x: Ty, cx: Seq<(Seq<char>, Ty)>|
            #[trigger] steps_to(s, env, ctx, stmts[0], x, cx) implies wt_stmts(s, env, cx, rest, a) == wt_stmts(
            s,
            env,
            cx,
            rest,
            b,
        ) by {
            lemma_wt_stmts_respects(s, env, cx, rest, a, b);
        }
    }
}

/// A sound typing carries over to a type that the substitution makes equal.
pub proof fn lemma_sound_expr_respects(
    s: Seq<Option<Ty>>,
    env: Env,
    ctx: Seq<(Seq<char>, Ty)>,
    e: Expr,
    a: Ty,
    b: Ty,
)
    requires
        apply(s, a) == apply(s, b),
        sound_expr(s, env, ctx, e, a),
    ensures
        sound_expr(s, env, ctx, e, b),
{
    assert forall|s2: Seq<Option<Ty>>| #[trigger] absorbs(s2, s) implies wt(s2, env, ctx, e, b) by {
        crate::types::lemma_absorbs_keeps_equal(s2, s, a, b);
        lemma_wt_respects(s2, env, ctx, e, a, b);
    }
}

/// The context of the locals with one more pushed.
pub proof fn lemma_bindings_push(ls: Seq<Local>, l: Local)
    ensures
        bindings(ls.push(l)) == bindings(ls).push((l.name@, l.ty)),
{
    assert(bindings(ls.push(l)) =~= bindings(ls).push((l.name@, l.ty)));
}

/// The innermost binding of a name in the context is that of the locals.
pub proof fn lemma_innermost_bindings(ls: Seq<Local>, name: Seq<char>, i: int)
    ensures
        innermost(bindings(ls), name, i) <==> crate::env::innermost_local(ls, name, i),
{
    let b = bindings(ls);
    assert(b.len() == ls.len());
    assert forall|k: int| 0 <= k < ls.len() implies #[trigger] b[k].0 == ls[k].name@ by {}
    if innermost(b, name, i) {
        assert forall|k: int| i < k < ls.len() implies #[trigger] ls[k].name@ != name by {
            assert(b[k].0 != name);
        }
    }
    if crate::env::innermost_local(ls, name, i) {
        assert forall|k: int| i < k < b.len() implies #[trigger] b[k].0 != name by {
            assert(ls[k].name@ != name);
        }
    }
}

/// As `lemma_sound_expr_respects`, for statements.
pub proof fn lemma_sound_stmts_respects(
    s: Seq<Option<Ty>>,
    env: Env,
    ctx: Seq<(Seq<char>, Ty)>,
    stmts: Seq<Stmt>,
    a: Ty,
    b: Ty,
)
    requires
        apply(s, a) == apply(s, b),
        sound_stmts(s, env, ctx, stmts, a),
    ensures
        sound_stmts(s, env, ctx, stmts, b),
{
    assert forall|s2: Seq<Option<Ty>>| #[trigger] absorbs(s2, s) implies wt_stmts(s2, env, ctx, stmts, b) by {
        crate::types::lemma_absorbs_keeps_equal(s2, s, a, b);
        lemma_wt_stmts_respects(s2, env, ctx, stmts, a, b);
    }
}

/// A variable bound in the context has the type of its innermost binding.
pub proof fn lemma_sound_local(
    s: Seq<Option<Ty>>,
    env: Env,
    ctx: Seq<(Seq<char>, Ty)>,
    e: Expr,
    i: int,
)
    requires
        e matches Expr::Var(x) && innermost(ctx, x@, i),
    ensures
        sound_expr(s, env, ctx, e, ctx[i].1),
{
    let x = e->Var_0;
    assert forall|s2: Seq<Option<Ty>>| #[trigger] absorbs(s2, s) implies wt(s2, env, ctx, e, ctx[i].1) by {
        assert forall|j: int| #[trigger] innermost(ctx, x@, j) implies apply(s2, ctx[i].1) == apply(
            s2,
            ctx[j].1,
        ) by {
            if j < i {
                assert(ctx[i].0 == x@);
            } else if i < j {
                assert(ctx[j].0 == x@);
            }
        }
    }
}

/// A name with no binding in the context refers to the module level value
/// `env.vals[j]`, and has a type that fits it.
pub proof fn lemma_sound_global(
    s: Seq<Option<Ty>>,
    env: Env,
    ctx: Seq<(Seq<char>, Ty)>,
    e: Expr,
    j: int,
    t: Ty,
)
    requires
        e matches Expr::Var(x) && (forall|k: int| 0 <= k < ctx.len() ==> ctx[k].0 != x@) && last_value(
            env.vals,
            x@,
            j,
        ),
        env.vals[j].generalized ==> exists|f: spec_fn(usize) -> Ty|
            t == #[trigger] crate::env::gens_by(env.vals[j].scheme, f),
        !env.vals[j].generalized ==> t == env.vals[j].scheme,
    ensures
        sound_expr(s, env, ctx, e, t),
{
    let x = e->Var_0;
    assert forall|s2: Seq<Option<Ty>>| #[trigger] absorbs(s2, s) implies wt(s2, env, ctx, e, t) by {
        assert forall|j2: int| #[trigger] last_value(env.vals, x@, j2) implies value_fits(
            s2,
            env.vals[j2],
            apply(s2, t),
        ) by {
            if j2 < j {
                assert(env.vals[j].name@ == x@);
            } else if j < j2 {
                assert(env.vals[j2].name@ == x@);
            }
            if env.vals[j].generalized {
                let f = choose|f: spec_fn(usize) -> Ty| t == #[trigger] crate::env::gens_by(env.vals[j].scheme, f);
                assert(apply(s2, t) == apply(s2, crate::env::gens_by(env.vals[j].scheme, f)));
            }
        }
        assert forall|i: int| #[trigger] innermost(ctx, x@, i) implies apply(s2, t) == apply(s2, ctx[i].1) by {
            assert(ctx[i].0 == x@);
        }
    }
}

/// Typing of a qualified name `m.label` whose alias `m` is entry `a` of
/// the aliases and whose value is entry `j` of the module `m` names: its
/// type `t` is an instance of that value's type.
pub proof fn lemma_sound_qualified(
    s: Seq<Option<Ty>>,
    env: Env,
    ctx: Seq<(Seq<char>, Ty)>,
    e: Expr,
    a: int,
    j: int,
    t: Ty,
)
    requires
        e matches Expr::Access(inner, label) && names_module(env, ctx, *inner) && last_alias(
            env.aliases,
            inner->Var_0@,
            a,
        ) && last_value(env.modules[env.aliases[a].1 as int].values@, label@, j),
        env.modules[env.aliases[a].1 as int].values@[j].generalized ==> exists|f: spec_fn(usize) -> Ty|
            t == #[trigger] crate::env::gens_by(env.modules[env.aliases[a].1 as int].values@[j].scheme, f),
        !env.modules[env.aliases[a].1 as int].values@[j].generalized ==> t
            == env.modules[env.aliases[a].1 as int].values@[j].scheme,
    ensures
        sound_expr(s, env, ctx, e, t),
{
    let inner = e->Access_0;
    let label = e->Access_1;
    let m = inner->Var_0;
    let vs = env.modules[env.aliases[a].1 as int].values@;
    assert forall|s2: Seq<Option<Ty>>| #[trigger] absorbs(s2, s) implies wt(s2, env, ctx, e, t) by {
        assert forall|a2: int, j2: int|
            #[trigger] last_alias(env.aliases, m@, a2) && #[trigger] last_value(
                env.modules[env.aliases[a2].1 as int].values@,
                label@,
                j2,
            ) implies value_fits(
            s2,
            env.modules[env.aliases[a2].1 as int].values@[j2],
            apply(s2, t),
        ) by {
            if a2 < a {
                assert(env.aliases[a].0@ == m@);
            } else if a < a2 {
                assert(env.aliases[a2].0@ == m@);
            }
            if j2 < j {
                assert(vs[j].name@ == label@);
            } else if j < j2 {
                assert(vs[j2].name@ == label@);
            }
            if vs[j].generalized {
                let f = choose|f: spec_fn(usize) -> Ty| t == #[trigger] crate::env::gens_by(vs[j].scheme, f);
                assert(apply(s2, t) == apply(s2, crate::env::gens_by(vs[j].scheme, f)));
            }
        }
    }
}

/// Typing of a record access `inner.label` where `inner` has the type `rt`,
/// which has a field of that label of type `t`.
pub proof fn lemma_sound_field(
    s: Seq<Option<Ty>>,
    env: Env,
    ctx: Seq<(Seq<char>, Ty)>,
    e: Expr,
    rt: Ty,
    t: Ty,
)
    requires
        e matches Expr::Access(inner, label) && !names_module(env, ctx, *inner) && sound_expr(
            s,
            env,
            ctx,
            *inner,
            rt,
        ) && field_typed(s, env.types, rt, label@, apply(s, t)),
    ensures
        sound_expr(s, env, ctx, e, t),
{
    let inner = e->Access_0;
    let label = e->Access_1;
    let types = env.types;
    let (c, args, k, i) = choose|c: usize, args: Seq<Ty>, k: int, i: int|
        #![trigger crate::env::applied(Ty::Con(c), args), types[c as int].variants@[k].fields@[i]]
        {
            &&& c < types.len()
            &&& 0 <= k < types[c as int].variants@.len()
            &&& 0 <= i < types[c as int].variants@[k].fields@.len()
            &&& types[c as int].variants@[k].fields@[i].label is Some
            &&& types[c as int].variants@[k].fields@[i].label->0@ == label@
            &&& apply(s, rt) == apply(s, crate::env::applied(Ty::Con(c), args))
            &&& apply(s, t) == apply(
                s,
                crate::env::gens_replaced(types[c as int].variants@[k].fields@[i].ty, args),
            )
        };
    let fty = types[c as int].variants@[k].fields@[i].ty;
    assert forall|s2: Seq<Option<Ty>>| #[trigger] absorbs(s2, s) implies wt(s2, env, ctx, e, t) by {
        assert(wt(s2, env, ctx, *inner, rt));
        crate::types::lemma_absorbs_keeps_equal(s2, s, rt, crate::env::applied(Ty::Con(c), args));
        crate::types::lemma_absorbs_keeps_equal(s2, s, t, crate::env::gens_replaced(fty, args));
        assert(field_typed(s2, types, rt, label@, apply(s2, t)));
    }
}

/// Typing of a record update `C(..base, label: value, ...)` where `C` names
/// the value `v`: the types `fn_type(ps, r)` and `fn_type(ops, or)` are
/// instances of its type, the base has type `or`, each labelled value the
/// type of the first parameter with its label, and each parameter that no
/// value sets has the same type in both.
pub proof fn lemma_sound_update(
    s: Seq<Option<Ty>>,
    env: Env,
    ctx: Seq<(Seq<char>, Ty)>,
    e: Expr,
    v: crate::env::ValueInfo,
    ps: Seq<Ty>,
    r: Ty,
    ops: Seq<Ty>,
    or: Ty,
)
    requires
        e is Update,
        named_value(env, ctx, *e->Update_0) == Some(v),
        instance_of(s, v.scheme, fn_type(ps, r)),
        instance_of(s, v.scheme, fn_type(ops, or)),
        sound_expr(s, env, ctx, *e->Update_1, or),
        forall|i: int|
            0 <= i < e->Update_2@.len() ==> (#[trigger] e->Update_2@[i]).label is Some && (exists|q: int|
                crate::env::first_label(v.labels@, e->Update_2@[i].label->0@, q)) && forall|q: int|
                crate::env::first_label(v.labels@, e->Update_2@[i].label->0@, q) ==> q < ps.len()
                    && sound_expr(s, env, ctx, e->Update_2@[i].value, ps[q]),
        forall|q: int|
            0 <= q < ps.len() && q < ops.len() && !updated_at(v.labels@, e->Update_2@, q) ==> apply(
                s,
                #[trigger] ps[q],
            ) == apply(s, ops[q]),
    ensures
        sound_expr(s, env, ctx, e, r),
{
    let args = e->Update_2;
    let base = e->Update_1;
    let f1 = choose|f: spec_fn(usize) -> Ty|
        apply(s, fn_type(ps, r)) == apply(s, #[trigger] crate::env::gens_by(v.scheme, f));
    let f2 = choose|f: spec_fn(usize) -> Ty|
        apply(s, fn_type(ops, or)) == apply(s, #[trigger] crate::env::gens_by(v.scheme, f));
    assert forall|s2: Seq<Option<Ty>>| #[trigger] absorbs(s2, s) implies wt(s2, env, ctx, e, r) by {
        crate::types::lemma_absorbs_keeps_equal(s2, s, fn_type(ps, r), crate::env::gens_by(v.scheme, f1));
        crate::types::lemma_absorbs_keeps_equal(s2, s, fn_type(ops, or), crate::env::gens_by(v.scheme, f2));
        assert(instance_of(s2, v.scheme, fn_type(ps, r)));
        assert(instance_of(s2, v.scheme, fn_type(ops, or)));
        assert(wt(s2, env, ctx, *base, or));
        assert forall|i: int| 0 <= i < args@.len() implies (#[trigger] args@[i]).label is Some && (exists|q: int|
            crate::env::first_label(v.labels@, args@[i].label->0@, q)) && forall|q: int|
            crate::env::first_label(v.labels@, args@[i].label->0@, q) ==> q < ps.len() && wt(
                s2,
                env,
                ctx,
                args@[i].value,
                ps[q],
            ) by {
            assert forall|q: int| crate::env::first_label(v.labels@, args@[i].label->0@, q) implies q < ps.len()
                && wt(s2, env, ctx, args@[i].value, ps[q]) by {
                assert(sound_expr(s, env, ctx, args@[i].value, ps[q]));
            }
        }
        assert forall|q: int|
            0 <= q < ps.len() && q < ops.len() && !updated_at(v.labels@, args@, q) implies apply(
                s2,
                #[trigger] ps[q],
            ) == apply(s2, ops[q]) by {
            crate::types::lemma_absorbs_keeps_equal(s2, s, ps[q], ops[q]);
        }
    }
}

/// Typing of `-a` and `!a`.
pub proof fn lemma_sound_unary(
    s: Seq<Option<Ty>>,
    env: Env,
    ctx: Seq<(Seq<char>, Ty)>,
    e: Expr,
    t: Ty,
)
    requires
        e matches Expr::NegInt(a) ==> t == Ty::Con(0) && sound_expr(s, env, ctx, *a, Ty::Con(0)),
        e matches Expr::Not(a) ==> t == Ty::Con(3) && sound_expr(s, env, ctx, *a, Ty::Con(3)),
        e is NegInt || e is Not,
    ensures
        sound_expr(s, env, ctx, e, t),
{
    assert forall|s2: Seq<Option<Ty>>| #[trigger] absorbs(s2, s) implies wt(s2, env, ctx, e, t) by {
        match e {
            Expr::NegInt(a) => {
                assert(wt(s2, env, ctx, *a, Ty::Con(0)));
            },
            Expr::Not(a) => {
                assert(wt(s2, env, ctx, *a, Ty::Con(3)));
            },
            _ => {},
        }
    }
}

/// Typing of a binary operation whose operands have the type `x`.
pub proof fn lemma_sound_bin(
    s: Seq<Option<Ty>>,
    env: Env,
    ctx: Seq<(Seq<char>, Ty)>,
    e: Expr,
    x: Ty,
)
    requires
        e matches Expr::Bin(op, a, b) && (operand_type(op) matches Some(o) ==> x == o) && sound_expr(
            s,
            env,
            ctx,
            *a,
            x,
        ) && sound_expr(s, env, ctx, *b, x),
    ensures
        sound_expr(s, env, ctx, e, binop_result(e->Bin_0)),
{
    let a = e->Bin_1;
    let b = e->Bin_2;
    assert forall|s2: Seq<Option<Ty>>| #[trigger] absorbs(s2, s) implies wt(
        s2,
        env,
        ctx,
        e,
        binop_result(e->Bin_0),
    ) by {
        assert(wt(s2, env, ctx, *a, x));
        assert(wt(s2, env, ctx, *b, x));
        assert(binop_result(e->Bin_0) is Con);
    }
}

/// Typing of a list literal whose elements have the type `x`.
pub proof fn lemma_sound_list(
    s: Seq<Option<Ty>>,
    env: Env,
    ctx: Seq<(Seq<char>, Ty)>,
    e: Expr,
    x: Ty,
)
    requires
        e matches Expr::List(es, tail) && (forall|i: int|
            0 <= i < es@.len() ==> sound_expr(s, env, ctx, #[trigger] es@[i], x)) && (tail matches Some(
            tl,
        ) ==> sound_expr(s, env, ctx, *tl, list_of(x))),
    ensures
        sound_expr(s, env, ctx, e, list_of(x)),
{
    let es = e->List_0;
    let tail = e->List_1;
    assert forall|s2: Seq<Option<Ty>>| #[trigger] absorbs(s2, s) implies wt(s2, env, ctx, e, list_of(x)) by {
        assert forall|i: int| 0 <= i < es@.len() implies wt(s2, env, ctx, #[trigger] es@[i], x) by {
            assert(sound_expr(s, env, ctx, es@[i], x));
        }
        match tail {
            Some(tl) => {
                assert(sound_expr(s, env, ctx, *tl, list_of(x)));
                assert(wt(s2, env, ctx, *tl, list_of(x)));
            },
            None => {},
        }
    }
}

/// Typing of a tuple literal whose elements have the types `elems`.
pub proof fn lemma_sound_tuple(
    s: Seq<Option<Ty>>,
    env: Env,
    ctx: Seq<(Seq<char>, Ty)>,
    e: Expr,
    elems: Seq<Ty>,
)
    requires
        e matches Expr::Tuple(es) && elems.len() == es@.len() && forall|i: int|
            0 <= i < es@.len() ==> sound_expr(s, env, ctx, #[trigger] es@[i], elems[i]),
    ensures
        sound_expr(s, env, ctx, e, tuple_type(elems)),
{
    let es = e->Tuple_0;
    assert forall|s2: Seq<Option<Ty>>| #[trigger] absorbs(s2, s) implies wt(
        s2,
        env,
        ctx,
        e,
        tuple_type(elems),
    ) by {
        assert forall|i: int| 0 <= i < es@.len() implies wt(s2, env, ctx, #[trigger] es@[i], elems[i]) by {
            assert(sound_expr(s, env, ctx, es@[i], elems[i]));
        }
    }
}

/// Typing of `inner.k` where `inner` is a tuple of the types `elems`.
pub proof fn lemma_sound_tuple_index(
    s: Seq<Option<Ty>>,
    env: Env,
    ctx: Seq<(Seq<char>, Ty)>,
    e: Expr,
    t_inner: Ty,
    elems: Seq<Ty>,
)
    requires
        e matches Expr::TupleIndex(inner, k) && k < elems.len() && sound_expr(s, env, ctx, *inner, t_inner),
        apply(s, t_inner) == tuple_type(elems),
    ensures
        sound_expr(s, env, ctx, e, elems[e->TupleIndex_1 as int]),
{
    let inner = e->TupleIndex_0;
    let k = e->TupleIndex_1;
    assert forall|s2: Seq<Option<Ty>>| #[trigger] absorbs(s2, s) implies wt(
        s2,
        env,
        ctx,
        e,
        elems[k as int],
    ) by {
        assert(apply(s2, apply(s, t_inner)) == apply(s2, t_inner));
        assert(wt(s2, env, ctx, *inner, t_inner));
        lemma_wt_respects(s2, env, ctx, *inner, t_inner, tuple_type(elems));
        assert(apply(s2, apply(s, elems[k as int])) == apply(s2, elems[k as int]));
    }
}

/// Typing of a call: the callee has the type `ft`, which the substitution
/// makes a function from `ps` to `t`, and `slots` places each argument at a
/// parameter whose type it has, the unlabelled ones in order.
pub proof fn lemma_sound_call(
    s: Seq<Option<Ty>>,
    env: Env,
    ctx: Seq<(Seq<char>, Ty)>,
    e: Expr,
    ft: Ty,
    ps: Seq<Ty>,
    slots: Seq<Option<usize>>,
    t: Ty,
)
    requires
        e matches Expr::Call(f, args) && sound_expr(s, env, ctx, *f, ft) && ps.len() == slots.len() && (
        forall|q: int|
            0 <= q < slots.len() ==> (#[trigger] slots[q] matches Some(j) ==> j < args@.len()
                && sound_expr(s, env, ctx, args@[j as int].value, ps[q]))) && (forall|a2: int|
             0 <= a2 < args@.len() ==> #[trigger] crate::args::placed(slots, a2)) && ((forall|i: int|
            0 <= i < args@.len() ==> (#[trigger] args@[i]).label is None) ==> slots.len() == args@.len()
            && forall|q: int| 0 <= q < slots.len() ==> #[trigger] slots[q] == Some(q as usize)),
        apply(s, ft) == apply(s, fn_type(ps, t)),
    ensures
        sound_expr(s, env, ctx, e, t),
{
    let f = e->Call_0;
    let args = e->Call_1;
    assert forall|s2: Seq<Option<Ty>>| #[trigger] absorbs(s2, s) implies wt(s2, env, ctx, e, t) by {
        crate::types::lemma_absorbs_keeps_equal(s2, s, ft, fn_type(ps, t));
        assert(wt(s2, env, ctx, *f, ft));
        lemma_wt_respects(s2, env, ctx, *f, ft, fn_type(ps, t));
        assert forall|q: int| 0 <= q < slots.len() implies (#[trigger] slots[q] matches Some(j) ==> j
            < args@.len() && wt(s2, env, ctx, args@[j as int].value, ps[q])) by {
            if slots[q] is Some {
                assert(sound_expr(s, env, ctx, args@[slots[q]->Some_0 as int].value, ps[q]));
            }
        }
        assert(wt(s2, env, ctx, *f, fn_type(ps, t)));
    }
}

/// Typing of a block.
pub proof fn lemma_sound_block(
    s: Seq<Option<Ty>>,
    env: Env,
    ctx: Seq<(Seq<char>, Ty)>,
    e: Expr,
    t: Ty,
)
    requires
        e matches Expr::Block(stmts) && sound_stmts(s, env, ctx, stmts@, t),
    ensures
        sound_expr(s, env, ctx, e, t),
{
    let stmts = e->Block_0;
    assert forall|s2: Seq<Option<Ty>>| #[trigger] absorbs(s2, s) implies wt(s2, env, ctx, e, t) by {
        assert(wt_stmts(s2, env, ctx, stmts@, t));
    }
}

/// Typing of an anonymous function whose parameters have the types `ps` and
/// whose body has the type `r`.
pub proof fn lemma_sound_fn(
    s: Seq<Option<Ty>>,
    env: Env,
    ctx: Seq<(Seq<char>, Ty)>,
    e: Expr,
    ps: Seq<Ty>,
    r: Ty,
)
    requires
        e matches Expr::Fn(params, _, body) && ps.len() == params@.len() && sound_stmts(
            s,
            env,
            bind_params(ctx, params@, ps, params@.len()),
            body@,
            r,
        ),
    ensures
        sound_expr(s, env, ctx, e, fn_type(ps, r)),
{
    let params = e->Fn_0;
    let body = e->Fn_2;
    assert forall|s2: Seq<Option<Ty>>| #[trigger] absorbs(s2, s) implies wt(
        s2,
        env,
        ctx,
        e,
        fn_type(ps, r),
    ) by {
        assert(wt_stmts(s2, env, bind_params(ctx, params@, ps, params@.len()), body@, r));
    }
}

/// Binding the first `n` parameters reads only the first `n` types.
pub proof fn lemma_bind_params_prefix(
    ctx: Seq<(Seq<char>, Ty)>,
    params: Seq<FnParam>,
    ps1: Seq<Ty>,
    ps2: Seq<Ty>,
    n: nat,
)
    requires
        n <= ps1.len(),
        n <= ps2.len(),
        forall|k: int| 0 <= k < n ==> ps1[k] == ps2[k],
    ensures
        bind_params(ctx, params, ps1, n) == bind_params(ctx, params, ps2, n),
    decreases n,
{
    if n > 0 {
        lemma_bind_params_prefix(ctx, params, ps1, ps2, (n - 1) as nat);
    }
}

/// The value a statement computes.
pub open spec fn stmt_value(st: Stmt) -> Expr {
    match st {
        Stmt::Expr(e) => e,
        Stmt::Let { value, .. } => value,
    }
}

/// The judgment follows the context past an expression statement and past
/// a `let` that is not a `let assert` or whose pattern is a variable or a
/// discard.
pub open spec fn keeps_track(st: Stmt) -> bool {
    match st {
        Stmt::Expr(_) => true,
        Stmt::Let { assert, pattern, .. } => !assert || pattern is Var || pattern is Discard,
    }
}

/// Under `s`, a statement whose value has the type `x` takes the context
/// `cb` to `ca`: an expression leaves it, a `let` adds what its pattern
/// binds.
pub open spec fn steps_to(
    s: Seq<Option<Ty>>,
    env: Env,
    cb: Seq<(Seq<char>, Ty)>,
    st: Stmt,
    x: Ty,
    ca: Seq<(Seq<char>, Ty)>,
) -> bool {
    match st {
        Stmt::Expr(_) => ca == cb,
        Stmt::Let { pattern, .. } => wp(s, env, cb, pattern, x, ca),
    }
}

/// `steps_to` under every refinement of `s`.
pub open spec fn sound_step(
    s: Seq<Option<Ty>>,
    env: Env,
    cb: Seq<(Seq<char>, Ty)>,
    st: Stmt,
    x: Ty,
    ca: Seq<(Seq<char>, Ty)>,
) -> bool {
    forall|s2: Seq<Option<Ty>>| #[trigger] absorbs(s2, s) ==> steps_to(s2, env, cb, st, x, ca)
}

/// A statement step carries over to a refinement.
pub proof fn lemma_sound_step_refine(
    s_new: Seq<Option<Ty>>, env: Env,
    s_old: Seq<Option<Ty>>,
    cb: Seq<(Seq<char>, Ty)>,
    st: Stmt,
    x: Ty,
    ca: Seq<(Seq<char>, Ty)>,
)
    requires
        absorbs(s_new, s_old),
        sound_step(s_old, env, cb, st, x, ca),
    ensures
        sound_step(s_new, env, cb, st, x, ca),
{
    assert forall|s2: Seq<Option<Ty>>| #[trigger] absorbs(s2, s_new) implies steps_to(s2, env, cb, st, x, ca) by {
        crate::types::lemma_absorbs_trans(s2, s_new, s_old);
    }
}

/// Statements typed one after the other, each in the context the ones
/// before it left, make a typed sequence.
pub proof fn lemma_wt_stmts_chain(
    s: Seq<Option<Ty>>,
    env: Env,
    ctxs: Seq<Seq<(Seq<char>, Ty)>>,
    stmts: Seq<Stmt>,
    xs: Seq<Ty>,
    k: int,
    t: Ty,
)
    requires
        0 <= k <= stmts.len(),
        ctxs.len() == stmts.len() + 1,
        xs.len() == stmts.len(),
        forall|j: int| k <= j < stmts.len() ==> wt(s, env, ctxs[j], stmt_value(stmts[j]), #[trigger] xs[j]),
        forall|j: int|
            k <= j < stmts.len() && keeps_track(#[trigger] stmts[j]) ==> steps_to(
                s,
                env,
                ctxs[j],
                stmts[j],
                xs[j],
                ctxs[j + 1],
            ),
        stmts.len() > 0 ==> apply(s, xs.last()) == apply(s, t),
    ensures
        wt_stmts(s, env, ctxs[k], stmts.skip(k), t),
    decreases stmts.len() - k,
{
    let cur = stmts.skip(k);
    if k < stmts.len() {
        lemma_wt_stmts_chain(s, env, ctxs, stmts, xs, k + 1, t);
        assert(cur[0] == stmts[k]);
        assert(cur.drop_first() =~= stmts.skip(k + 1));
        let x = xs[k];
        assert(wt(s, env, ctxs[k], stmt_value(stmts[k]), x));
        if cur.drop_first().len() == 0 {
            assert(xs.last() == x);
        }
        if keeps_track(stmts[k]) {
            assert(steps_to(s, env, ctxs[k], stmts[k], x, ctxs[k + 1]));
        }
    } else {
        assert(cur.len() == 0);
    }
}

/// As `lemma_wt_stmts_chain`, for typings that hold under every refinement
/// of `s`.
pub proof fn lemma_sound_stmts_chain(
    s: Seq<Option<Ty>>,
    env: Env,
    ctxs: Seq<Seq<(Seq<char>, Ty)>>,
    stmts: Seq<Stmt>,
    xs: Seq<Ty>,
    t: Ty,
)
    requires
        ctxs.len() == stmts.len() + 1,
        xs.len() == stmts.len(),
        forall|j: int|
            0 <= j < stmts.len() ==> sound_expr(s, env, ctxs[j], stmt_value(stmts[j]), #[trigger] xs[j]),
        forall|j: int|
            0 <= j < stmts.len() && keeps_track(#[trigger] stmts[j]) ==> sound_step(
                s,
                env,
                ctxs[j],
                stmts[j],
                xs[j],
                ctxs[j + 1],
            ),
        stmts.len() > 0 ==> apply(s, xs.last()) == apply(s, t),
    ensures
        sound_stmts(s, env, ctxs[0], stmts, t),
{
    assert forall|s2: Seq<Option<Ty>>| #[trigger] absorbs(s2, s) implies wt_stmts(s2, env, ctxs[0], stmts, t) by {
        assert forall|j: int| 0 <= j < stmts.len() implies wt(
            s2,
            env,
            ctxs[j],
            stmt_value(stmts[j]),
            #[trigger] xs[j],
        ) by {
            assert(sound_expr(s, env, ctxs[j], stmt_value(stmts[j]), xs[j]));
        }
        assert forall|j: int| 0 <= j < stmts.len() && keeps_track(#[trigger] stmts[j]) implies steps_to(
            s2,
            env,
            ctxs[j],
            stmts[j],
            xs[j],
            ctxs[j + 1],
        ) by {
            assert(sound_step(s, env, ctxs[j], stmts[j], xs[j], ctxs[j + 1]));
        }
        if stmts.len() > 0 {
            crate::types::lemma_absorbs_keeps_equal(s2, s, xs.last(), t);
        }
        lemma_wt_stmts_chain(s2, env, ctxs, stmts, xs, 0, t);
        assert(stmts.skip(0) =~= stmts);
    }
}

/// Typing of `todo` and `panic`, whose message is a `String`.
pub proof fn lemma_sound_message(
    s: Seq<Option<Ty>>,
    env: Env,
    ctx: Seq<(Seq<char>, Ty)>,
    e: Expr,
    t: Ty,
)
    requires
        e is Todo || e is Panic,
        e matches Expr::Todo(msg) ==> (msg matches Some(m) ==> sound_expr(s, env, ctx, *m, Ty::Con(2))),
        e matches Expr::Panic(msg) ==> (msg matches Some(m) ==> sound_expr(s, env, ctx, *m, Ty::Con(2))),
    ensures
        sound_expr(s, env, ctx, e, t),
{
    assert forall|s2: Seq<Option<Ty>>| #[trigger] absorbs(s2, s) implies wt(s2, env, ctx, e, t) by {
        match e {
            Expr::Todo(Some(m)) => {
                assert(wt(s2, env, ctx, *m, Ty::Con(2)));
            },
            Expr::Panic(Some(m)) => {
                assert(wt(s2, env, ctx, *m, Ty::Con(2)));
            },
            _ => {},
        }
    }
}

/// Typing of a bit array literal whose segments hold what their kinds say.
pub proof fn lemma_sound_bit_array(
    s: Seq<Option<Ty>>,
    env: Env,
    ctx: Seq<(Seq<char>, Ty)>,
    e: Expr,
)
    requires
        e matches Expr::BitArray(segs) && forall|i: int|
            0 <= i < segs@.len() ==> sound_expr(
                s,
                env,
                ctx,
                (#[trigger] segs@[i]).value,
                segment_type(segs@[i].kind),
            ),
    ensures
        sound_expr(s, env, ctx, e, Ty::Con(7)),
{
    let segs = e->BitArray_0;
    assert forall|s2: Seq<Option<Ty>>| #[trigger] absorbs(s2, s) implies wt(s2, env, ctx, e, Ty::Con(7)) by {
        assert forall|i: int| 0 <= i < segs@.len() implies wt(
            s2,
            env,
            ctx,
            (#[trigger] segs@[i]).value,
            segment_type(segs@[i].kind),
        ) by {
            assert(sound_expr(s, env, ctx, segs@[i].value, segment_type(segs@[i].kind)));
        }
    }
}

/// `row_typed` under every refinement of `s`.
pub open spec fn sound_row(
    s: Seq<Option<Ty>>,
    env: Env,
    cs: Seq<Seq<(Seq<char>, Ty)>>,
    row: Seq<Pattern>,
    stys: Seq<Ty>,
) -> bool {
    forall|s2: Seq<Option<Ty>>| #[trigger] absorbs(s2, s) ==> row_typed(s2, env, cs, row, stys)
}

/// A case clause over subjects of the types `stys` is typed under every
/// refinement of `s`, its body with the type `t`: its rows match the
/// subjects, and its guard and body are typed in an extension of `ctx`.
pub open spec fn sound_clause(
    s: Seq<Option<Ty>>,
    env: Env,
    ctx: Seq<(Seq<char>, Ty)>,
    cl: Clause,
    stys: Seq<Ty>,
    t: Ty,
) -> bool {
    &&& rows_ok(s, env, ctx, cl, stys, cl.alternatives@.len() as int)
    &&& exists|cx: Seq<(Seq<char>, Ty)>|
        #![trigger sound_expr(s, env, cx, cl.body, t)]
        ctx.is_prefix_of(cx) && (cl.guard matches Some(g) ==> sound_expr(s, env, cx, g, Ty::Con(3)))
            && sound_expr(s, env, cx, cl.body, t)
}

/// Alternative row `a` of a clause matches the subjects' types `stys` under
/// every refinement of `s`, from an extension of `ctx`.
pub open spec fn row_ok_at(
    s: Seq<Option<Ty>>,
    env: Env,
    ctx: Seq<(Seq<char>, Ty)>,
    cl: Clause,
    stys: Seq<Ty>,
    a: int,
) -> bool {
    exists|cs: Seq<Seq<(Seq<char>, Ty)>>|
        #![trigger sound_row(s, env, cs, cl.alternatives@[a]@, stys)]
        ctx.is_prefix_of(cs[0]) && sound_row(s, env, cs, cl.alternatives@[a]@, stys)
}

/// The first `n` alternative rows of a clause match the subjects' types.
pub open spec fn rows_ok(
    s: Seq<Option<Ty>>,
    env: Env,
    ctx: Seq<(Seq<char>, Ty)>,
    cl: Clause,
    stys: Seq<Ty>,
    n: int,
) -> bool {
    forall|a: int| 0 <= a < n ==> #[trigger] row_ok_at(s, env, ctx, cl, stys, a)
}

/// A row typing carries over to a refinement.
pub proof fn lemma_row_ok_at_refine(
    s_new: Seq<Option<Ty>>, env: Env,
    s_old: Seq<Option<Ty>>,
    ctx: Seq<(Seq<char>, Ty)>,
    cl: Clause,
    stys: Seq<Ty>,
    a: int,
)
    requires
        absorbs(s_new, s_old),
        row_ok_at(s_old, env, ctx, cl, stys, a),
    ensures
        row_ok_at(s_new, env, ctx, cl, stys, a),
{
    let cs = choose|cs: Seq<Seq<(Seq<char>, Ty)>>|
        #![trigger sound_row(s_old, env, cs, cl.alternatives@[a]@, stys)]
        ctx.is_prefix_of(cs[0]) && sound_row(s_old, env, cs, cl.alternatives@[a]@, stys);
    lemma_sound_row_refine(s_new, env, s_old, cs, cl.alternatives@[a]@, stys);
}

/// Row typings carry over to a refinement.
pub proof fn lemma_rows_ok_refine(
    s_new: Seq<Option<Ty>>, env: Env,
    s_old: Seq<Option<Ty>>,
    ctx: Seq<(Seq<char>, Ty)>,
    cl: Clause,
    stys: Seq<Ty>,
    n: int,
)
    requires
        absorbs(s_new, s_old),
        rows_ok(s_old, env, ctx, cl, stys, n),
    ensures
        rows_ok(s_new, env, ctx, cl, stys, n),
{
    assert forall|a: int| 0 <= a < n implies #[trigger] row_ok_at(s_new, env, ctx, cl, stys, a) by {
        lemma_row_ok_at_refine(s_new, env, s_old, ctx, cl, stys, a);
    }
}

/// A row typing carries over to a refinement.
pub proof fn lemma_sound_row_refine(
    s_new: Seq<Option<Ty>>, env: Env,
    s_old: Seq<Option<Ty>>,
    cs: Seq<Seq<(Seq<char>, Ty)>>,
    row: Seq<Pattern>,
    stys: Seq<Ty>,
)
    requires
        absorbs(s_new, s_old),
        sound_row(s_old, env, cs, row, stys),
    ensures
        sound_row(s_new, env, cs, row, stys),
{
    assert forall|s2: Seq<Option<Ty>>| #[trigger] absorbs(s2, s_new) implies row_typed(s2, env, cs, row, stys) by {
        crate::types::lemma_absorbs_trans(s2, s_new, s_old);
    }
}

/// Patterns typed one after the other make a typed row.
pub proof fn lemma_sound_row(
    s: Seq<Option<Ty>>,
    env: Env,
    cs: Seq<Seq<(Seq<char>, Ty)>>,
    row: Seq<Pattern>,
    stys: Seq<Ty>,
)
    requires
        row.len() == stys.len(),
        cs.len() == row.len() + 1,
        forall|k: int| 0 <= k < row.len() ==> sound_pattern(s, env, cs[k], #[trigger] row[k], stys[k], cs[k + 1]),
    ensures
        sound_row(s, env, cs, row, stys),
{
    assert forall|s2: Seq<Option<Ty>>| #[trigger] absorbs(s2, s) implies row_typed(s2, env, cs, row, stys) by {
        assert forall|k: int| 0 <= k < row.len() implies wp(s2, env, cs[k], #[trigger] row[k], stys[k], cs[k + 1]) by {
            assert(sound_pattern(s, env, cs[k], row[k], stys[k], cs[k + 1]));
        }
    }
}

/// A clause typing carries over to a refinement.
pub proof fn lemma_sound_clause_refine(
    s_new: Seq<Option<Ty>>, env: Env,
    s_old: Seq<Option<Ty>>,
    ctx: Seq<(Seq<char>, Ty)>,
    cl: Clause,
    stys: Seq<Ty>,
    t: Ty,
)
    requires
        absorbs(s_new, s_old),
        sound_clause(s_old, env, ctx, cl, stys, t),
    ensures
        sound_clause(s_new, env, ctx, cl, stys, t),
{
    lemma_rows_ok_refine(s_new, env, s_old, ctx, cl, stys, cl.alternatives@.len() as int);
    let cx = choose|cx: Seq<(Seq<char>, Ty)>|
        #![trigger sound_expr(s_old, env, cx, cl.body, t)]
        ctx.is_prefix_of(cx) && (cl.guard matches Some(g) ==> sound_expr(s_old, env, cx, g, Ty::Con(3)))
            && sound_expr(s_old, env, cx, cl.body, t);
    lemma_sound_expr_refine(s_new, env, s_old, cx, cl.body, t);
    match cl.guard {
        Some(g) => {
            lemma_sound_expr_refine(s_new, env, s_old, cx, g, Ty::Con(3));
        },
        None => {},
    }
}

/// Typing of a case expression: its subjects have the types `stys` and
/// every clause, over those types, gives a value of type `t`.
pub proof fn lemma_sound_case(
    s: Seq<Option<Ty>>,
    env: Env,
    ctx: Seq<(Seq<char>, Ty)>,
    e: Expr,
    stys: Seq<Ty>,
    t: Ty,
)
    requires
        e matches Expr::Case(subjects, clauses) && stys.len() == subjects@.len() && (forall|i: int|
            0 <= i < subjects@.len() ==> sound_expr(s, env, ctx, #[trigger] subjects@[i], stys[i]))
            && forall|c: int|
            0 <= c < clauses@.len() ==> sound_clause(s, env, ctx, #[trigger] clauses@[c], stys, t),
    ensures
        sound_expr(s, env, ctx, e, t),
{
    let subjects = e->Case_0;
    let clauses = e->Case_1;
    assert forall|s2: Seq<Option<Ty>>| #[trigger] absorbs(s2, s) implies wt(s2, env, ctx, e, t) by {
        assert forall|i: int| 0 <= i < subjects@.len() implies wt(
            s2,
            env,
            ctx,
            #[trigger] subjects@[i],
            stys[i],
        ) by {
            assert(sound_expr(s, env, ctx, subjects@[i], stys[i]));
        }
        assert forall|c: int| 0 <= c < clauses@.len() implies wt_clause(
            s2,
            env,
            ctx,
            #[trigger] clauses@[c],
            stys,
            apply(s2, t),
        ) by {
            lemma_wt_clause_of_sound(s, env, s2, ctx, clauses@[c], stys, t);
        }
        assert(stys.len() == subjects@.len());
    }
}

/// A clause typed under every refinement of `s` is typed under `s2`.
pub proof fn lemma_wt_clause_of_sound(
    s: Seq<Option<Ty>>,
    env: Env,
    s2: Seq<Option<Ty>>,
    ctx: Seq<(Seq<char>, Ty)>,
    cl: Clause,
    stys: Seq<Ty>,
    t: Ty,
)
    requires
        absorbs(s2, s),
        sound_clause(s, env, ctx, cl, stys, t),
    ensures
        wt_clause(s2, env, ctx, cl, stys, apply(s2, t)),
{
    assert forall|a: int| 0 <= a < cl.alternatives@.len() implies #[trigger] row_typed_at(
        s2,
        env,
        ctx,
        cl,
        stys,
        a,
    ) by {
        assert(row_ok_at(s, env, ctx, cl, stys, a));
        let cs = choose|cs: Seq<Seq<(Seq<char>, Ty)>>|
            #![trigger sound_row(s, env, cs, cl.alternatives@[a]@, stys)]
            ctx.is_prefix_of(cs[0]) && sound_row(s, env, cs, cl.alternatives@[a]@, stys);
        assert(row_typed(s2, env, cs, cl.alternatives@[a]@, stys));
    }
    assert(rows_typed(s2, env, ctx, cl, stys));
    let cx = choose|cx: Seq<(Seq<char>, Ty)>|
        #![trigger sound_expr(s, env, cx, cl.body, t)]
        ctx.is_prefix_of(cx) && (cl.guard matches Some(g) ==> sound_expr(s, env, cx, g, Ty::Con(3)))
            && sound_expr(s, env, cx, cl.body, t);
    assert(wt(s2, env, cx, cl.body, t));
    match cl.guard {
        Some(g) => {
            assert(wt(s2, env, cx, g, Ty::Con(3)));
        },
        None => {},
    }
    assert(ctx.is_prefix_of(cx));
}

/// Locals that keep those of `a` in place give a context that `a`'s is a
/// prefix of.
pub proof fn lemma_bindings_prefix(a: Seq<Local>, b: Seq<Local>)
    requires
        crate::infer::extends_locals(a, b),
    ensures
        bindings(a).is_prefix_of(bindings(b)),
{
    assert forall|k: int| 0 <= k < a.len() implies #[trigger] bindings(b)[k] == bindings(a)[k] by {
        assert(b.subrange(0, a.len() as int)[k] == a[k]);
    }
    assert(bindings(a) =~= bindings(b).subrange(0, bindings(a).len() as int));
}

/// Each expression of `es` has the type at its position in `ts`, under
/// every refinement of `s`.
pub open spec fn sound_all(
    s: Seq<Option<Ty>>,
    env: Env,
    ctx: Seq<(Seq<char>, Ty)>,
    es: Seq<Expr>,
    ts: Seq<Ty>,
) -> bool {
    ts.len() == es.len() && forall|i: int| 0 <= i < es.len() ==> sound_expr(s, env, ctx, #[trigger] es[i], ts[i])
}

/// Under `s`, the pattern `p` matches values of type `t`; the context `cb`
/// becomes `ca` with what it binds, in order. A constructor pattern is
/// typed by the type scheme in `env` of the constructor it names
/// (`ctor_ok`).
pub open spec fn wp(
    s: Seq<Option<Ty>>,
    env: Env,
    cb: Seq<(Seq<char>, Ty)>,
    p: Pattern,
    t: Ty,
    ca: Seq<(Seq<char>, Ty)>,
) -> bool
    decreases p, 1nat,
{
    let ts = apply(s, t);
    match p {
        Pattern::Discard => ca == cb,
        Pattern::Var(n) => ca == cb.push((n@, t)),
        Pattern::Int => ts == Ty::Con(0) && ca == cb,
        Pattern::Float => ts == Ty::Con(1) && ca == cb,
        Pattern::Str => ts == Ty::Con(2) && ca == cb,
        Pattern::As(inner, n) => exists|mid: Seq<(Seq<char>, Ty)>|
            #![trigger mid.push((n@, t))]
            wp(s, env, cb, *inner, t, mid) && ca == mid.push((n@, t)),
        Pattern::List(elems, tail) => exists|x: Ty, cs: Seq<Seq<(Seq<char>, Ty)>>|
            #![trigger list_of(x), cs.len()]
            ts == apply(s, list_of(x)) && cs.len() == elems@.len() + 1 && cs[0] == cb && (forall|
                i: int,
            |
                0 <= i < elems@.len() ==> wp(s, env, cs[i], #[trigger] elems@[i], x, cs[i + 1])) && match tail {
                Some(tl) => wp(s, env, cs.last(), *tl, list_of(x), ca),
                None => ca == cs.last(),
            },
        Pattern::Tuple(elems) => exists|tys: Seq<Ty>, cs: Seq<Seq<(Seq<char>, Ty)>>|
            #![trigger tuple_type(tys), cs.len()]
            ts == apply(s, tuple_type(tys)) && tys.len() == elems@.len() && cs.len() == elems@.len()
                + 1 && cs[0] == cb && cs.last() == ca && forall|i: int|
                0 <= i < elems@.len() ==> wp(s, env, cs[i], #[trigger] elems@[i], tys[i], cs[i + 1]),
        Pattern::BitArray(segs) => ts == Ty::Con(7) && exists|cs: Seq<Seq<(Seq<char>, Ty)>>|
            #![trigger cs.len()]
            cs.len() == segs@.len() + 1 && cs[0] == cb && cs.last() == ca && forall|i: int|
                0 <= i < segs@.len() ==> wp(
                    s,
                    env,
                    cs[i],
                    (#[trigger] segs@[i]).value,
                    segment_type(segs@[i].kind),
                    cs[i + 1],
                ),
        Pattern::Ctor { .. } => ctor_ok(s, env, cb, p, ts, ca),
    }
}

/// Under `s`, the constructor pattern `p` matches values whose type `s`
/// makes `ts`: its name, with or without a module, refers to a value of
/// `env` (`named_value`); an instance of that value's type scheme is a
/// function from the types of the fields to the matched type (or that type
/// itself, for a constructor without fields); `slots` places each argument
/// pattern at a field, the unlabelled ones in order where no argument is
/// labelled and no `..` is written; and the fields are taken one after the
/// other, taking `cb` to `ca`: a field with an argument pattern by what that
/// pattern binds, one without by nothing.
pub open spec fn ctor_ok(
    s: Seq<Option<Ty>>,
    env: Env,
    cb: Seq<(Seq<char>, Ty)>,
    p: Pattern,
    ts: Ty,
    ca: Seq<(Seq<char>, Ty)>,
) -> bool
    decreases p, 0nat,
{
    match p {
        Pattern::Ctor { module, name, args, spread } => named_value(
            env,
            cb,
            ctor_name(module, name),
        ) matches Some(v) && exists|
            f: spec_fn(usize) -> Ty,
            fields: Seq<Ty>,
            ret: Ty,
            cs: Seq<Seq<(Seq<char>, Ty)>>,
            slots: Seq<Option<usize>>,
        |
            #![trigger crate::env::gens_by(v.scheme, f), fn_type(fields, ret), cs.len(), slots.len()]
            {
                &&& (crate::env::gens_by(v.scheme, f) == fn_type(fields, ret) || (args@.len() == 0
                    && fields.len() == 0 && crate::env::gens_by(v.scheme, f) == ret))
                &&& ts == apply(s, ret)
                &&& slots.len() == fields.len()
                &&& cs.len() == fields.len() + 1
                &&& cs[0] == cb
                &&& cs.last() == ca
                &&& forall|k: int|
                    #![trigger slots[k]]
                    0 <= k < fields.len() ==> match slots[k] {
                        Some(j) => j < args@.len() && wp(s, env, cs[k], args@[j as int].value, fields[k], cs[k + 1]),
                        None => cs[k + 1] == cs[k],
                    }
                &&& forall|a: int| 0 <= a < args@.len() ==> #[trigger] crate::args::placed(slots, a)
                &&& (!spread && forall|i: int| 0 <= i < args@.len() ==> (#[trigger] args@[i]).label is None)
                    ==> slots.len() == args@.len() && forall|q: int|
                    0 <= q < slots.len() ==> #[trigger] slots[q] == Some(q as usize)
            },
        _ => false,
    }
}

/// `wp` under every refinement of `s`.
pub open spec fn sound_pattern(
    s: Seq<Option<Ty>>,
    env: Env,
    cb: Seq<(Seq<char>, Ty)>,
    p: Pattern,
    t: Ty,
    ca: Seq<(Seq<char>, Ty)>,
) -> bool {
    forall|s2: Seq<Option<Ty>>| #[trigger] absorbs(s2, s) ==> wp(s2, env, cb, p, t, ca)
}

/// A pattern typing carries over to a refinement.
pub proof fn lemma_sound_pattern_refine(
    s_new: Seq<Option<Ty>>, env: Env,
    s_old: Seq<Option<Ty>>,
    cb: Seq<(Seq<char>, Ty)>,
    p: Pattern,
    t: Ty,
    ca: Seq<(Seq<char>, Ty)>,
)
    requires
        absorbs(s_new, s_old),
        sound_pattern(s_old, env, cb, p, t, ca),
    ensures
        sound_pattern(s_new, env, cb, p, t, ca),
{
    assert forall|s2: Seq<Option<Ty>>| #[trigger] absorbs(s2, s_new) implies wp(s2, env, cb, p, t, ca) by {
        crate::types::lemma_absorbs_trans(s2, s_new, s_old);
    }
}

/// Typing of a pattern that the substitution makes match a fixed type.
pub proof fn lemma_sound_pattern_leaf(
    s: Seq<Option<Ty>>,
    env: Env,
    cb: Seq<(Seq<char>, Ty)>,
    p: Pattern,
    t: Ty,
    ca: Seq<(Seq<char>, Ty)>,
)
    requires
        p is Discard || p is Var || p is Int || p is Float || p is Str,
        p is Discard || p is Int || p is Float || p is Str ==> ca == cb,
        p matches Pattern::Var(n) ==> ca == cb.push((n@, t)),
        p is Int ==> apply(s, t) == Ty::Con(0),
        p is Float ==> apply(s, t) == Ty::Con(1),
        p is Str ==> apply(s, t) == Ty::Con(2),
    ensures
        sound_pattern(s, env, cb, p, t, ca),
{
    assert forall|s2: Seq<Option<Ty>>| #[trigger] absorbs(s2, s) implies wp(s2, env, cb, p, t, ca) by {
        assert(apply(s2, apply(s, t)) == apply(s2, t));
    }
}

/// Typing of `inner as n`.
pub proof fn lemma_sound_pattern_as(
    s: Seq<Option<Ty>>,
    env: Env,
    cb: Seq<(Seq<char>, Ty)>,
    p: Pattern,
    t: Ty,
    mid: Seq<(Seq<char>, Ty)>,
)
    requires
        p matches Pattern::As(inner, _) && sound_pattern(s, env, cb, *inner, t, mid),
    ensures
        sound_pattern(s, env, cb, p, t, mid.push((p->As_1@, t))),
{
    let inner = p->As_0;
    let n = p->As_1;
    assert forall|s2: Seq<Option<Ty>>| #[trigger] absorbs(s2, s) implies wp(
        s2,
        env,
        cb,
        p,
        t,
        mid.push((n@, t)),
    ) by {
        assert(wp(s2, env, cb, *inner, t, mid));
    }
}

/// Typing of a list pattern whose elements match `x`, threading the
/// contexts `cs`.
pub proof fn lemma_sound_pattern_list(
    s: Seq<Option<Ty>>,
    env: Env,
    cb: Seq<(Seq<char>, Ty)>,
    p: Pattern,
    t: Ty,
    x: Ty,
    cs: Seq<Seq<(Seq<char>, Ty)>>,
    ca: Seq<(Seq<char>, Ty)>,
)
    requires
        p matches Pattern::List(elems, tail) && cs.len() == elems@.len() + 1 && cs[0] == cb && (forall|
            i: int,
        |
            0 <= i < elems@.len() ==> sound_pattern(s, env, cs[i], #[trigger] elems@[i], x, cs[i + 1]))
            && match tail {
            Some(tl) => sound_pattern(s, env, cs.last(), *tl, list_of(x), ca),
            None => ca == cs.last(),
        },
        apply(s, t) == apply(s, list_of(x)),
    ensures
        sound_pattern(s, env, cb, p, t, ca),
{
    let elems = p->List_0;
    let tail = p->List_1;
    assert forall|s2: Seq<Option<Ty>>| #[trigger] absorbs(s2, s) implies wp(s2, env, cb, p, t, ca) by {
        crate::types::lemma_absorbs_keeps_equal(s2, s, t, list_of(x));
        assert forall|i: int| 0 <= i < elems@.len() implies wp(
            s2,
            env,
            cs[i],
            #[trigger] elems@[i],
            x,
            cs[i + 1],
        ) by {
            assert(sound_pattern(s, env, cs[i], elems@[i], x, cs[i + 1]));
        }
        match tail {
            Some(tl) => {
                assert(sound_pattern(s, env, cs.last(), *tl, list_of(x), ca));
                assert(wp(s2, env, cs.last(), *tl, list_of(x), ca));
            },
            None => {},
        }
        assert(cs.len() == elems@.len() + 1);
    }
}

/// Typing of a tuple pattern whose elements match `tys`, threading the
/// contexts `cs`.
pub proof fn lemma_sound_pattern_tuple(
    s: Seq<Option<Ty>>,
    env: Env,
    p: Pattern,
    t: Ty,
    tys: Seq<Ty>,
    cs: Seq<Seq<(Seq<char>, Ty)>>,
)
    requires
        p matches Pattern::Tuple(elems) && tys.len() == elems@.len() && cs.len() == elems@.len() + 1
            && forall|i: int|
            0 <= i < elems@.len() ==> sound_pattern(s, env, cs[i], #[trigger] elems@[i], tys[i], cs[i + 1]),
        apply(s, t) == apply(s, tuple_type(tys)),
    ensures
        sound_pattern(s, env, cs[0], p, t, cs.last()),
{
    let elems = p->Tuple_0;
    assert forall|s2: Seq<Option<Ty>>| #[trigger] absorbs(s2, s) implies wp(s2, env, cs[0], p, t, cs.last()) by {
        crate::types::lemma_absorbs_keeps_equal(s2, s, t, tuple_type(tys));
        assert forall|i: int| 0 <= i < elems@.len() implies wp(
            s2,
            env,
            cs[i],
            #[trigger] elems@[i],
            tys[i],
            cs[i + 1],
        ) by {
            assert(sound_pattern(s, env, cs[i], elems@[i], tys[i], cs[i + 1]));
        }
        assert(cs.len() == elems@.len() + 1);
    }
}

/// Typing of a bit array pattern, threading the contexts `cs`.
pub proof fn lemma_sound_pattern_bits(
    s: Seq<Option<Ty>>,
    env: Env,
    p: Pattern,
    t: Ty,
    cs: Seq<Seq<(Seq<char>, Ty)>>,
)
    requires
        p matches Pattern::BitArray(segs) && cs.len() == segs@.len() + 1 && forall|i: int|
            0 <= i < segs@.len() ==> sound_pattern(
                s,
                env,
                cs[i],
                (#[trigger] segs@[i]).value,
                segment_type(segs@[i].kind),
                cs[i + 1],
            ),
        apply(s, t) == Ty::Con(7),
    ensures
        sound_pattern(s, env, cs[0], p, t, cs.last()),
{
    let segs = p->BitArray_0;
    assert forall|s2: Seq<Option<Ty>>| #[trigger] absorbs(s2, s) implies wp(s2, env, cs[0], p, t, cs.last()) by {
        assert(apply(s2, apply(s, t)) == apply(s2, t));
        assert forall|i: int| 0 <= i < segs@.len() implies wp(
            s2,
            env,
            cs[i],
            (#[trigger] segs@[i]).value,
            segment_type(segs@[i].kind),
            cs[i + 1],
        ) by {
            assert(sound_pattern(s, env, cs[i], segs@[i].value, segment_type(segs@[i].kind), cs[i + 1]));
        }
        assert(cs.len() == segs@.len() + 1);
    }
}

/// Typing of `l |> f(args)` where `l` goes first among the arguments.
pub proof fn lemma_sound_pipe_first(
    s: Seq<Option<Ty>>,
    env: Env,
    ctx: Seq<(Seq<char>, Ty)>,
    e: Expr,
    xl: Ty,
    ft: Ty,
    ps: Seq<Ty>,
    t: Ty,
)
    requires
        e matches Expr::Pipe(l, r) && *r matches Expr::Call(f, args) && sound_expr(s, env, ctx, *l, xl)
            && sound_expr(s, env, ctx, *f, ft) && ps.len() == args@.len() + 1 && ((forall|i: int|
            0 <= i < args@.len() ==> (#[trigger] args@[i]).label is None) ==> apply(s, ps[0]) == apply(
            s,
            xl,
        ) && forall|i: int|
            0 <= i < args@.len() ==> sound_expr(s, env, ctx, (#[trigger] args@[i]).value, ps[i + 1])),
        apply(s, ft) == apply(s, fn_type(ps, t)),
    ensures
        sound_expr(s, env, ctx, e, t),
{
    let l = e->Pipe_0;
    let r = e->Pipe_1;
    let f = r->Call_0;
    let args = r->Call_1;
    assert forall|s2: Seq<Option<Ty>>| #[trigger] absorbs(s2, s) implies wt(s2, env, ctx, e, t) by {
        assert(wt(s2, env, ctx, *l, xl));
        if forall|i: int| 0 <= i < args@.len() ==> (#[trigger] args@[i]).label is None {
            crate::types::lemma_absorbs_keeps_equal(s2, s, ft, fn_type(ps, t));
            crate::types::lemma_absorbs_keeps_equal(s2, s, ps[0], xl);
            assert(wt(s2, env, ctx, *f, ft));
            lemma_wt_respects(s2, env, ctx, *f, ft, fn_type(ps, t));
            assert forall|i: int| 0 <= i < args@.len() implies wt(
                s2,
                env,
                ctx,
                (#[trigger] args@[i]).value,
                ps[i + 1],
            ) by {
                assert(sound_expr(s, env, ctx, args@[i].value, ps[i + 1]));
            }
        }
        assert(pipe_call_ok(s2, env, ctx, *r, xl, apply(s2, t)));
        assert(pipe_ok(s2, env, ctx, e, apply(s2, t)));
    }
}

/// Typing of `l |> f(args)` where `f(args)` gives the function that takes
/// `l`.
pub proof fn lemma_sound_pipe_curried(
    s: Seq<Option<Ty>>,
    env: Env,
    ctx: Seq<(Seq<char>, Ty)>,
    e: Expr,
    xl: Ty,
    ft: Ty,
    ps: Seq<Ty>,
    g: Ty,
    p0: Ty,
    t: Ty,
)
    requires
        e matches Expr::Pipe(l, r) && *r matches Expr::Call(f, args) && sound_expr(s, env, ctx, *l, xl)
            && sound_expr(s, env, ctx, *f, ft) && ps.len() == args@.len() && ((forall|i: int|
            0 <= i < args@.len() ==> (#[trigger] args@[i]).label is None) ==> forall|i: int|
            0 <= i < args@.len() ==> sound_expr(s, env, ctx, (#[trigger] args@[i]).value, ps[i])),
        apply(s, ft) == apply(s, fn_type(ps, g)),
        apply(s, g) == apply(s, fn_type(seq![p0], t)),
        apply(s, p0) == apply(s, xl),
    ensures
        sound_expr(s, env, ctx, e, t),
{
    let l = e->Pipe_0;
    let r = e->Pipe_1;
    let f = r->Call_0;
    let args = r->Call_1;
    assert forall|s2: Seq<Option<Ty>>| #[trigger] absorbs(s2, s) implies wt(s2, env, ctx, e, t) by {
        assert(wt(s2, env, ctx, *l, xl));
        if forall|i: int| 0 <= i < args@.len() ==> (#[trigger] args@[i]).label is None {
            crate::types::lemma_absorbs_keeps_equal(s2, s, ft, fn_type(ps, g));
            crate::types::lemma_absorbs_keeps_equal(s2, s, g, fn_type(seq![p0], t));
            crate::types::lemma_absorbs_keeps_equal(s2, s, p0, xl);
            assert(wt(s2, env, ctx, *f, ft));
            lemma_wt_respects(s2, env, ctx, *f, ft, fn_type(ps, g));
            assert forall|i: int| 0 <= i < args@.len() implies wt(
                s2,
                env,
                ctx,
                (#[trigger] args@[i]).value,
                ps[i],
            ) by {
                assert(sound_expr(s, env, ctx, args@[i].value, ps[i]));
            }
        }
        assert(pipe_call_ok(s2, env, ctx, *r, xl, apply(s2, t)));
        assert(pipe_ok(s2, env, ctx, e, apply(s2, t)));
    }
}

/// Typing of `l |> r` where `r` is a function of one parameter.
pub proof fn lemma_sound_pipe_fn(
    s: Seq<Option<Ty>>,
    env: Env,
    ctx: Seq<(Seq<char>, Ty)>,
    e: Expr,
    xl: Ty,
    ft: Ty,
    p0: Ty,
    t: Ty,
)
    requires
        e matches Expr::Pipe(l, r) && !(*r is Call) && sound_expr(s, env, ctx, *l, xl) && sound_expr(
            s,
            env,
            ctx,
            *r,
            ft,
        ),
        apply(s, ft) == apply(s, fn_type(seq![p0], t)),
        apply(s, p0) == apply(s, xl),
    ensures
        sound_expr(s, env, ctx, e, t),
{
    let l = e->Pipe_0;
    let r = e->Pipe_1;
    assert forall|s2: Seq<Option<Ty>>| #[trigger] absorbs(s2, s) implies wt(s2, env, ctx, e, t) by {
        assert(wt(s2, env, ctx, *l, xl));
        assert(wt(s2, env, ctx, *r, ft));
        crate::types::lemma_absorbs_keeps_equal(s2, s, ft, fn_type(seq![p0], t));
        crate::types::lemma_absorbs_keeps_equal(s2, s, p0, xl);
        assert(pipe_fn_ok(s2, env, ctx, *r, xl, apply(s2, t)));
        assert(pipe_ok(s2, env, ctx, e, apply(s2, t)));
    }
}

/// Typing of a constructor pattern naming the value `v`, an instance of
/// whose type is `fn_type(fields, ret)` (or `ret` itself, for a constructor
/// without fields), with its argument patterns placed at the fields by
/// `slots` and the contexts `cs` between the fields.
pub proof fn lemma_sound_pattern_ctor(
    s: Seq<Option<Ty>>,
    env: Env,
    p: Pattern,
    t: Ty,
    v: crate::env::ValueInfo,
    f: spec_fn(usize) -> Ty,
    fields: Seq<Ty>,
    ret: Ty,
    cs: Seq<Seq<(Seq<char>, Ty)>>,
    slots: Seq<Option<usize>>,
)
    requires
        p is Ctor,
        cs.len() == fields.len() + 1,
        named_value(env, cs[0], ctor_name(p->Ctor_module, p->Ctor_name)) == Some(v),
        crate::env::gens_by(v.scheme, f) == fn_type(fields, ret) || (p->Ctor_args@.len() == 0
            && fields.len() == 0 && crate::env::gens_by(v.scheme, f) == ret),
        slots.len() == fields.len(),
        forall|k: int|
            #![trigger slots[k]]
            0 <= k < fields.len() ==> match slots[k] {
                Some(j) => j < p->Ctor_args@.len() && sound_pattern(
                    s,
                    env,
                    cs[k],
                    p->Ctor_args@[j as int].value,
                    fields[k],
                    cs[k + 1],
                ),
                None => cs[k + 1] == cs[k],
            },
        forall|a: int| 0 <= a < p->Ctor_args@.len() ==> #[trigger] crate::args::placed(slots, a),
        (!p->Ctor_spread && forall|i: int|
            0 <= i < p->Ctor_args@.len() ==> (#[trigger] p->Ctor_args@[i]).label is None) ==> slots.len()
            == p->Ctor_args@.len() && forall|q: int|
            0 <= q < slots.len() ==> #[trigger] slots[q] == Some(q as usize),
        apply(s, t) == apply(s, ret),
    ensures
        sound_pattern(s, env, cs[0], p, t, cs.last()),
{
    let args = p->Ctor_args;
    assert forall|s2: Seq<Option<Ty>>| #[trigger] absorbs(s2, s) implies wp(s2, env, cs[0], p, t, cs.last()) by {
        crate::types::lemma_absorbs_keeps_equal(s2, s, t, ret);
        assert forall|k: int|
            #![trigger slots[k]]
            0 <= k < fields.len() implies match slots[k] {
            Some(j) => j < args@.len() && wp(s2, env, cs[k], args@[j as int].value, fields[k], cs[k + 1]),
            None => cs[k + 1] == cs[k],
        } by {
            if slots[k] is Some {
                let j = slots[k]->0;
                assert(sound_pattern(s, env, cs[k], args@[j as int].value, fields[k], cs[k + 1]));
            }
        }
        assert(ctor_ok(s2, env, cs[0], p, apply(s2, t), cs.last()));
    }
}

} // verus!
