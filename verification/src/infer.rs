use vstd::prelude::*;
use crate::ast::{Arg, BinOp, Clause, Expr, FnParam, Pattern, SegKind, Stmt, TypeAst};
use crate::env::{
    entries_closed, lemma_applied_no_vars, lemma_gens_replaced_no_vars, vars_closed,
    bit_array_ty, bool_ty, chars_of, codepoint_ty, copy_labels, copy_opt_name, copy_type_ref,
    copy_value, find_label, find_local, find_module, find_type, find_value, float_ty, fn_parts,
    fn_ty, generalize_resolved, instantiate_with, int_ty, list_ty, named_parts, nil_ty,
    string_ty, subst_gens, tuple_parts, tuple_ty, Field, Local, ModuleInterface, Publicity,
    TypeCon, TypeEntry, TypeRef, Typed, ValueInfo, Variant,
};
use crate::args::place_args;
use crate::error::TypeError;
use crate::types::{lemma_absorbs_chain, lemma_absorbs_self};
use crate::exhaustive::{
    extends_by_pattern, is_useful, lemma_grow_done, lemma_grow_node, lemma_grow_pattern,
    lemma_grow_start, pending, Node,
};
use crate::lexer::{copy_name, same_name};
use crate::print::print_type;
use crate::typing::{
    binop_result, bindings, keeps_track, lemma_sound_expr_refine,
    lemma_sound_expr_respects, operand_type, sound_expr, stmt_value,
};
use crate::types::{copy_ty, ty_equal, Subst, Ty, UnifyError};

verus! {

broadcast use {lemma_absorbs_chain, lemma_absorbs_self};

/// The depth that a single unification may descend to.
pub fn unify_depth() -> (r: usize)
    ensures
        r == 100000,
{
    100000
}

/// A callee: its type, the labels of its parameters and, for a
/// constructor, its type and variant.
pub struct Callee {
    pub typed: Typed,
    pub labels: Vec<Option<Vec<char>>>,
    pub ctor: Option<(usize, usize)>,
}

/// The type checker's state.
pub struct Checker {
    pub subst: Subst,
    /// All named types known, by slot.
    pub types: Vec<TypeCon>,
    /// The names of `types`, for printing.
    pub type_names: Vec<Vec<char>>,
    /// Compiled modules that can be imported; the first is the prelude.
    pub modules: Vec<ModuleInterface>,
    pub module_name: Vec<char>,
    /// Type names visible unqualified.
    pub scope_types: Vec<TypeEntry>,
    /// Values visible unqualified.
    pub scope_values: Vec<ValueInfo>,
    /// Module aliases and the modules they name.
    pub aliases: Vec<(Vec<char>, usize)>,
    pub locals: Vec<Local>,
    /// Named type variables of the annotations being checked.
    pub ann_vars: Vec<(Vec<char>, Ty)>,
}

/// The type of a number or string literal: `Int`, `Float` or `String`.
pub open spec fn literal_type(e: Expr) -> Option<Ty> {
    match e {
        Expr::Int => Some(Ty::Con(0)),
        Expr::Float => Some(Ty::Con(1)),
        Expr::Str => Some(Ty::Con(2)),
        _ => None,
    }
}

/// `e` plainly has the type `t` under the substitution `s`: it is a
/// literal of that type, or a local variable of `ls` whose type resolves
/// to it.
pub open spec fn plainly_of(s: Seq<Option<Ty>>, ls: Seq<Local>, e: Expr, t: Ty) -> bool {
    ||| literal_type(e) == Some(t)
    ||| (e is Var && exists|i: int|
        #[trigger] crate::env::innermost_local(ls, e->Var_0@, i) && crate::types::apply(s, ls[i].ty)
            == t)
}

/// A substitution that absorbs another keeps what plainly has a named
/// type.
proof fn lemma_plainly_kept(s2: Seq<Option<Ty>>, s1: Seq<Option<Ty>>, ls: Seq<Local>, e: Expr, t: Ty)
    requires
        crate::types::absorbs(s2, s1),
        t is Con,
        plainly_of(s1, ls, e, t),
    ensures
        plainly_of(s2, ls, e, t),
{
    if literal_type(e) != Some(t) {
        let i = choose|i: int|
            #[trigger] crate::env::innermost_local(ls, e->Var_0@, i) && crate::types::apply(s1, ls[i].ty)
                == t;
        assert(crate::types::apply(s2, crate::types::apply(s1, ls[i].ty)) == crate::types::apply(
            s2,
            ls[i].ty,
        ));
    }
}

/// What the form of an expression alone says of its type: a number
/// literal or a negation is an `Int`, a float literal a `Float`, a string
/// literal a `String`, a `!` a `Bool`, a bit array literal a `BitArray`, a
/// binary operation what its operator gives, a list literal a `List`, a tuple of `n` elements a tuple type of `n`
/// elements and an anonymous function of `n` parameters a function type of
/// `n` parameters. Other forms take their type from their parts.
pub open spec fn result_shape(e: Expr, t: Ty) -> bool {
    match e {
        Expr::Int => t == Ty::Con(0),
        Expr::NegInt(_) => t == Ty::Con(0),
        Expr::Float => t == Ty::Con(1),
        Expr::Str => t == Ty::Con(2),
        Expr::Not(_) => t == Ty::Con(3),
        Expr::BitArray(_) => t == Ty::Con(7),
        Expr::Bin(op, _, _) => t == binop_result(op),
        Expr::List(_, _) => t matches Ty::App(h, _) && *h == Ty::Con(5),
        Expr::Tuple(es) => exists|ts: Seq<Ty>|
            ts.len() == es@.len() && t == #[trigger] crate::env::tuple_type(ts),
        Expr::Fn(ps, _, _) => exists|ts: Seq<Ty>, rt: Ty|
            ts.len() == ps@.len() && t == #[trigger] crate::env::fn_type(ts, rt),
        _ => true,
    }
}

/// `b` keeps the locals of `a`, in place, and may hold more after them.
pub open spec fn extends_locals(a: Seq<Local>, b: Seq<Local>) -> bool {
    a.len() <= b.len() && b.subrange(0, a.len() as int) =~= a
}

/// How many steps the exhaustiveness search of one case expression or
/// assignment may take.
pub fn exhaustiveness_fuel() -> (r: usize)
    ensures
        r == 1000,
{
    1000
}

/// What the type name `name`, qualified by `module` where given, stands
/// for in the checker `c`: the last type entry of that name in scope, or
/// the importable one of the module its alias names.
pub open spec fn named_type(c: Checker, module: Option<Vec<char>>, name: Seq<char>) -> Option<TypeRef> {
    match module {
        None => if exists|i: int| crate::typing::last_entry(c.scope_types@, name, i) {
            Some(c.scope_types@[choose|i: int| crate::typing::last_entry(c.scope_types@, name, i)].kind)
        } else {
            None
        },
        Some(m) => if crate::typing::names_module(c.env(), bindings(c.locals@), Expr::Var(m))
            && exists|k: TypeRef|
            crate::typing::importable_type(crate::typing::aliased_module(c.env(), m@).types@, name, k) {
            Some(
                choose|k: TypeRef|
                    crate::typing::importable_type(crate::typing::aliased_module(c.env(), m@).types@, name, k),
            )
        } else {
            None
        },
    }
}

/// The annotation `ast` stands for a type in the checker `c`, within `fuel`
/// levels of nesting: `_` and unknown type variables only where new ones
/// may be made; each named type known, with as many arguments as it takes.
pub open spec fn annotation_ok(c: Checker, ast: TypeAst, allow_new: bool, fuel: nat) -> bool
    decreases fuel,
{
    if fuel == 0 {
        false
    } else {
        let f = (fuel - 1) as nat;
        match ast {
            TypeAst::Hole => allow_new,
            TypeAst::Var(n) => allow_new || exists|i: int|
                0 <= i < c.ann_vars@.len() && (#[trigger] c.ann_vars@[i]).0@ == n@,
            TypeAst::Fn(params, ret) => (forall|i: int|
                0 <= i < params@.len() ==> annotation_ok(c, #[trigger] params@[i], allow_new, f))
                && annotation_ok(c, *ret, allow_new, f),
            TypeAst::Tuple(elems) => forall|i: int|
                0 <= i < elems@.len() ==> annotation_ok(c, #[trigger] elems@[i], allow_new, f),
            TypeAst::Named { module, name, args } => named_type(c, module, name@) matches Some(k) && (
            forall|i: int| 0 <= i < args@.len() ==> annotation_ok(c, #[trigger] args@[i], allow_new, f))
                && match k {
                TypeRef::Con(id) => id < c.types@.len() ==> c.types@[id as int].arity == args@.len(),
                TypeRef::Alias(arity, _) => arity == args@.len(),
            },
        }
    }
}

/// Whether an annotation is accepted depends only on the names in scope,
/// and on the named type variables where no new ones may be made.
pub proof fn lemma_annotation_ok_frame(c1: Checker, c2: Checker, ast: TypeAst, allow_new: bool, fuel: nat)
    requires
        c1.scope_types@ == c2.scope_types@,
        c1.env() == c2.env(),
        c1.locals@ == c2.locals@,
        c1.types@ == c2.types@,
        allow_new || c1.ann_vars@ == c2.ann_vars@,
    ensures
        annotation_ok(c1, ast, allow_new, fuel) == annotation_ok(c2, ast, allow_new, fuel),
    decreases fuel,
{
    if fuel > 0 {
        let f = (fuel - 1) as nat;
        match ast {
            TypeAst::Fn(params, ret) => {
                assert forall|i: int| 0 <= i < params@.len() implies annotation_ok(
                    c1,
                    #[trigger] params@[i],
                    allow_new,
                    f,
                ) == annotation_ok(c2, params@[i], allow_new, f) by {
                    lemma_annotation_ok_frame(c1, c2, params@[i], allow_new, f);
                }
                lemma_annotation_ok_frame(c1, c2, *ret, allow_new, f);
            },
            TypeAst::Tuple(elems) => {
                assert forall|i: int| 0 <= i < elems@.len() implies annotation_ok(
                    c1,
                    #[trigger] elems@[i],
                    allow_new,
                    f,
                ) == annotation_ok(c2, elems@[i], allow_new, f) by {
                    lemma_annotation_ok_frame(c1, c2, elems@[i], allow_new, f);
                }
            },
            TypeAst::Named { module, name, args } => {
                assert(named_type(c1, module, name@) == named_type(c2, module, name@));
                assert forall|i: int| 0 <= i < args@.len() implies annotation_ok(
                    c1,
                    #[trigger] args@[i],
                    allow_new,
                    f,
                ) == annotation_ok(c2, args@[i], allow_new, f) by {
                    lemma_annotation_ok_frame(c1, c2, args@[i], allow_new, f);
                }
            },
            _ => {},
        }
    }
}

/// The local `ls[i]` has a namesake among `ls[mark..alt_mark]`.
pub open spec fn bound_in(ls: Seq<Local>, mark: int, alt_mark: int, i: int) -> bool {
    exists|j: int| mark <= j < alt_mark && ls[j].name@ == ls[i].name@
}

/// The local `ls[i]` has a namesake among `ls[mark..alt_mark]` whose type
/// `s` makes the same.
pub open spec fn unified_in(s: Seq<Option<Ty>>, ls: Seq<Local>, mark: int, alt_mark: int, i: int) -> bool {
    exists|j: int|
        mark <= j < alt_mark && ls[j].name@ == ls[i].name@ && crate::types::apply(s, ls[j].ty)
            == crate::types::apply(s, ls[i].ty)
}

/// Position `idx` of `fs` is the first field labelled `label`.
pub open spec fn first_field(fs: Seq<Field>, label: Seq<char>, idx: int) -> bool {
    &&& 0 <= idx < fs.len()
    &&& fs[idx].label is Some && fs[idx].label->0@ == label
    &&& forall|k: int| 0 <= k < idx ==> !(fs[k].label is Some && fs[k].label->0@ == label)
}

/// The variant a record access reads: the known one, when it is in range,
/// else the first.
pub open spec fn chosen_variant(n: nat, variant: Option<usize>) -> int {
    match variant {
        Some(k) => if k < n {
            k as int
        } else {
            0
        },
        None => 0,
    }
}

/// A record access `.label` on a value of the resolved type `rt`, built
/// with the constructor `variant` where that is known, finds its field: `rt`
/// is a named type of `types` with constructors; the chosen one has a field
/// of that label; and where the constructor is not known and there are
/// several, each has a field of that label and type at the same position.
pub open spec fn field_lookup_ok(
    types: Seq<TypeCon>,
    rt: Ty,
    variant: Option<usize>,
    label: Seq<char>,
) -> bool {
    &&& crate::env::spine_head(rt) is Con
    &&& crate::env::spine_head(rt)->Con_0 < types.len()
    &&& types[crate::env::spine_head(rt)->Con_0 as int].variants@.len() > 0
    &&& {
        let vs = types[crate::env::spine_head(rt)->Con_0 as int].variants@;
        let fs = vs[chosen_variant(vs.len(), variant)].fields@;
        exists|idx: int|
            #[trigger] first_field(fs, label, idx) && (variant is Some || vs.len() == 1 || forall|k: int|
                0 <= k < vs.len() ==> idx < (#[trigger] vs[k]).fields@.len() && vs[k].fields@[idx].label
                    is Some && vs[k].fields@[idx].label->0@ == label && vs[k].fields@[idx].ty == fs[idx].ty)
    }
}

/// A named type of the prelude: module `gleam`, the given name and arity,
/// public.
pub open spec fn prelude_con(t: TypeCon, name: Seq<char>, arity: usize) -> bool {
    &&& t.module@ == "gleam"@
    &&& t.name@ == name
    &&& t.arity == arity
    &&& t.publicity is Public
}

/// A constructor with the given name and no fields.
pub open spec fn unit_variant_of(v: Variant, name: Seq<char>) -> bool {
    v.name@ == name && v.fields@.len() == 0
}

/// A constructor with the given name and one unlabelled field of type `t`.
pub open spec fn one_field_variant_of(v: Variant, name: Seq<char>, t: Ty) -> bool {
    &&& v.name@ == name
    &&& v.fields@.len() == 1
    &&& v.fields@[0].label is None
    &&& v.fields@[0].ty == t
}

/// The type `Result(a, b)` over the quantified variables 0 and 1.
pub open spec fn result_of_gens() -> Ty {
    Ty::App(Box::new(Ty::App(Box::new(Ty::Con(6)), Box::new(Ty::Gen(0)))), Box::new(Ty::Gen(1)))
}

/// The prelude's named types, in slot order: Int, Float, String, Bool
/// (True, False), Nil (Nil), List of one parameter, Result of two
/// (Ok and Error, each holding one of them), BitArray, UtfCodepoint.
pub open spec fn is_prelude_types(ts: Seq<TypeCon>) -> bool {
    &&& ts.len() == 9
    &&& prelude_con(ts[0], "Int"@, 0) && ts[0].variants@.len() == 0
    &&& prelude_con(ts[1], "Float"@, 0) && ts[1].variants@.len() == 0
    &&& prelude_con(ts[2], "String"@, 0) && ts[2].variants@.len() == 0
    &&& prelude_con(ts[3], "Bool"@, 0) && ts[3].variants@.len() == 2
    &&& unit_variant_of(ts[3].variants@[0], "True"@) && unit_variant_of(ts[3].variants@[1], "False"@)
    &&& prelude_con(ts[4], "Nil"@, 0) && ts[4].variants@.len() == 1
    &&& unit_variant_of(ts[4].variants@[0], "Nil"@)
    &&& prelude_con(ts[5], "List"@, 1) && ts[5].variants@.len() == 0
    &&& prelude_con(ts[6], "Result"@, 2) && ts[6].variants@.len() == 2
    &&& one_field_variant_of(ts[6].variants@[0], "Ok"@, Ty::Gen(0))
    &&& one_field_variant_of(ts[6].variants@[1], "Error"@, Ty::Gen(1))
    &&& prelude_con(ts[7], "BitArray"@, 0) && ts[7].variants@.len() == 0
    &&& prelude_con(ts[8], "UtfCodepoint"@, 0) && ts[8].variants@.len() == 0
}

/// A public, generalised constructor of the prelude with the given name,
/// type, type and variant, and that many unlabelled fields.
pub open spec fn prelude_ctor(
    v: ValueInfo,
    name: Seq<char>,
    scheme: Ty,
    ctor: (usize, usize),
    arity: nat,
) -> bool {
    &&& v.name@ == name
    &&& v.scheme == scheme
    &&& v.generalized
    &&& v.labels@.len() == arity
    &&& forall|i: int| 0 <= i < arity ==> (#[trigger] v.labels@[i]) is None
    &&& v.ctor == Some(ctor)
    &&& v.publicity is Public
}

/// A public type entry of the given name for the named type in `slot`.
pub open spec fn prelude_entry(e: TypeEntry, name: Seq<char>, slot: usize) -> bool {
    e.name@ == name && e.kind == TypeRef::Con(slot) && e.publicity is Public
}

/// The prelude module `gleam`: its nine types by their slots, and the
/// constructors True, False, Nil, Ok and Error.
pub open spec fn is_prelude_module(m: ModuleInterface) -> bool {
    &&& m.name@ == "gleam"@
    &&& m.package@.len() == 0
    &&& m.types@.len() == 9
    &&& prelude_entry(m.types@[0], "Int"@, 0)
    &&& prelude_entry(m.types@[1], "Float"@, 1)
    &&& prelude_entry(m.types@[2], "String"@, 2)
    &&& prelude_entry(m.types@[3], "Bool"@, 3)
    &&& prelude_entry(m.types@[4], "Nil"@, 4)
    &&& prelude_entry(m.types@[5], "List"@, 5)
    &&& prelude_entry(m.types@[6], "Result"@, 6)
    &&& prelude_entry(m.types@[7], "BitArray"@, 7)
    &&& prelude_entry(m.types@[8], "UtfCodepoint"@, 8)
    &&& m.values@.len() == 5
    &&& prelude_ctor(m.values@[0], "True"@, Ty::Con(3), (3, 0), 0)
    &&& prelude_ctor(m.values@[1], "False"@, Ty::Con(3), (3, 1), 0)
    &&& prelude_ctor(m.values@[2], "Nil"@, Ty::Con(4), (4, 0), 0)
    &&& prelude_ctor(m.values@[3], "Ok"@, crate::env::fn_type(seq![Ty::Gen(0)], result_of_gens()), (6, 0), 1)
    &&& prelude_ctor(m.values@[4], "Error"@, crate::env::fn_type(seq![Ty::Gen(1)], result_of_gens()), (6, 1), 1)
}

/// The name of the prelude's named type in slot `i`.
pub open spec fn prelude_type_name(i: int) -> Seq<char> {
    if i == 0 {
        "Int"@
    } else if i == 1 {
        "Float"@
    } else if i == 2 {
        "String"@
    } else if i == 3 {
        "Bool"@
    } else if i == 4 {
        "Nil"@
    } else if i == 5 {
        "List"@
    } else if i == 6 {
        "Result"@
    } else if i == 7 {
        "BitArray"@
    } else {
        "UtfCodepoint"@
    }
}

/// The module level names of a fresh checker: the prelude's named types
/// and values, no module alias, and the prelude as the only module.
pub open spec fn is_prelude_env(env: crate::typing::Env) -> bool {
    &&& is_prelude_types(env.types)
    &&& env.aliases.len() == 0
    &&& env.modules.len() == 1
    &&& is_prelude_module(env.modules[0])
    &&& values_alike(env.vals, env.modules[0].values@)
}

/// Two lists of type entries with the same names, kinds and publicity.
pub open spec fn entries_alike(a: Seq<TypeEntry>, b: Seq<TypeEntry>) -> bool {
    &&& a.len() == b.len()
    &&& forall|k: int|
        0 <= k < a.len() ==> (#[trigger] a[k]).kind == b[k].kind && a[k].publicity == b[k].publicity
            && a[k].name@ == b[k].name@
}

/// Two lists of values alike in every part.
pub open spec fn values_alike(a: Seq<ValueInfo>, b: Seq<ValueInfo>) -> bool {
    &&& a.len() == b.len()
    &&& forall|k: int|
        0 <= k < a.len() ==> {
            &&& (#[trigger] a[k]).name@ == b[k].name@
            &&& a[k].scheme == b[k].scheme
            &&& a[k].generalized == b[k].generalized
            &&& a[k].ctor == b[k].ctor
            &&& a[k].publicity == b[k].publicity
            &&& crate::env::labels_alike(a[k].labels@, b[k].labels@)
        }
}

fn prelude_type(name: &str, arity: usize) -> (r: TypeCon)
    ensures
        prelude_con(r, name@, arity),
        r.variants@.len() == 0,
{
    TypeCon {
        module: chars_of("gleam"),
        name: chars_of(name),
        arity,
        publicity: Publicity::Public,
        variants: Vec::new(),
    }
}

fn unit_variant(name: &str) -> (r: Variant)
    ensures
        unit_variant_of(r, name@),
{
    Variant { name: chars_of(name), fields: Vec::new() }
}

fn prelude_value(name: &str, scheme: Ty, ctor: (usize, usize), arity: usize) -> (r: ValueInfo)
    ensures
        prelude_ctor(r, name@, scheme, ctor, arity as nat),
{
    let mut labels: Vec<Option<Vec<char>>> = Vec::new();
    let mut i: usize = 0;
    while i < arity
        invariant
            i <= arity,
            labels@.len() == i,
            forall|k: int| 0 <= k < i ==> (#[trigger] labels@[k]) is None,
        decreases arity - i,
    {
        labels.push(None);
        i = i + 1;
    }
    ValueInfo {
        name: chars_of(name),
        scheme,
        generalized: true,
        labels,
        ctor: Some(ctor),
        publicity: Publicity::Public,
    }
}

fn type_entry(name: &str, id: usize) -> (r: TypeEntry)
    ensures
        prelude_entry(r, name@, id),
{
    TypeEntry { name: chars_of(name), kind: TypeRef::Con(id), publicity: Publicity::Public }
}

/// The prelude's types, in slot order: Int, Float, String, Bool, Nil, List,
/// Result, BitArray, UtfCodepoint.
fn prelude_types() -> (r: Vec<TypeCon>)
    ensures
        is_prelude_types(r@),
{
    let mut ts: Vec<TypeCon> = Vec::new();
    ts.push(prelude_type("Int", 0));
    ts.push(prelude_type("Float", 0));
    ts.push(prelude_type("String", 0));
    let mut b = prelude_type("Bool", 0);
    b.variants.push(unit_variant("True"));
    b.variants.push(unit_variant("False"));
    ts.push(b);
    let mut n = prelude_type("Nil", 0);
    n.variants.push(unit_variant("Nil"));
    ts.push(n);
    ts.push(prelude_type("List", 1));
    let mut r = prelude_type("Result", 2);
    let mut ok_fields: Vec<Field> = Vec::new();
    ok_fields.push(Field { label: None, ty: Ty::Gen(0) });
    r.variants.push(Variant { name: chars_of("Ok"), fields: ok_fields });
    let mut err_fields: Vec<Field> = Vec::new();
    err_fields.push(Field { label: None, ty: Ty::Gen(1) });
    r.variants.push(Variant { name: chars_of("Error"), fields: err_fields });
    ts.push(r);
    ts.push(prelude_type("BitArray", 0));
    ts.push(prelude_type("UtfCodepoint", 0));
    ts
}

fn result_scheme() -> (r: Ty)
    ensures
        r == result_of_gens(),
{
    Ty::App(
        Box::new(Ty::App(Box::new(Ty::Con(6)), Box::new(Ty::Gen(0)))),
        Box::new(Ty::Gen(1)),
    )
}

/// The prelude module `gleam`.
fn prelude_module() -> (r: ModuleInterface)
    ensures
        entries_closed(r.types@),
        is_prelude_module(r),
{
    let mut types: Vec<TypeEntry> = Vec::new();
    types.push(type_entry("Int", 0));
    types.push(type_entry("Float", 1));
    types.push(type_entry("String", 2));
    types.push(type_entry("Bool", 3));
    types.push(type_entry("Nil", 4));
    types.push(type_entry("List", 5));
    types.push(type_entry("Result", 6));
    types.push(type_entry("BitArray", 7));
    types.push(type_entry("UtfCodepoint", 8));
    let mut values: Vec<ValueInfo> = Vec::new();
    values.push(prelude_value("True", Ty::Con(3), (3, 0), 0));
    values.push(prelude_value("False", Ty::Con(3), (3, 1), 0));
    values.push(prelude_value("Nil", Ty::Con(4), (4, 0), 0));
    let mut ok_params: Vec<Ty> = Vec::new();
    ok_params.push(Ty::Gen(0));
    proof {
        assert(ok_params@ =~= seq![Ty::Gen(0)]);
    }
    values.push(prelude_value("Ok", fn_ty(&ok_params, result_scheme()), (6, 0), 1));
    let mut err_params: Vec<Ty> = Vec::new();
    err_params.push(Ty::Gen(1));
    proof {
        assert(err_params@ =~= seq![Ty::Gen(1)]);
    }
    values.push(prelude_value("Error", fn_ty(&err_params, result_scheme()), (6, 1), 1));
    ModuleInterface { name: chars_of("gleam"), package: Vec::new(), types, values }
}

fn copy_entries(es: &Vec<TypeEntry>) -> (r: Vec<TypeEntry>)
    ensures
        entries_closed(es@) ==> entries_closed(r@),
        entries_alike(r@, es@),
{
    let mut r: Vec<TypeEntry> = Vec::new();
    let mut i: usize = 0;
    while i < es.len()
        invariant
            i <= es@.len(),
            r@.len() == i,
            forall|k: int|
                0 <= k < i ==> (#[trigger] r@[k]).kind == es@[k].kind && r@[k].publicity
                    == es@[k].publicity && r@[k].name@ == es@[k].name@,
        decreases es@.len() - i,
    {
        r.push(crate::env::copy_type_entry(&es[i]));
        i = i + 1;
    }
    r
}

fn copy_values(vs: &Vec<ValueInfo>) -> (r: Vec<ValueInfo>)
    ensures
        values_alike(r@, vs@),
{
    let mut r: Vec<ValueInfo> = Vec::new();
    let mut i: usize = 0;
    while i < vs.len()
        invariant
            i <= vs@.len(),
            values_alike(r@, vs@.take(i as int)),
        decreases vs@.len() - i,
    {
        r.push(copy_value(&vs[i]));
        i = i + 1;
    }
    proof {
        assert(vs@.take(vs@.len() as int) =~= vs@);
    }
    r
}

/// The type a bit array segment of the given kind holds.
fn segment_ty(k: &SegKind) -> (r: Ty)
    ensures
        r == crate::typing::segment_type(*k),
{
    match k {
        SegKind::Int => int_ty(),
        SegKind::Float => float_ty(),
        SegKind::Bits => bit_array_ty(),
        SegKind::Utf8 => string_ty(),
        SegKind::Codepoint => codepoint_ty(),
    }
}

impl Checker {
    pub open spec fn wf(&self) -> bool {
        self.subst.wf()
    }

    /// The module level names that the expressions being checked see.
    pub open spec fn env(&self) -> crate::typing::Env {
        crate::typing::Env {
            vals: self.scope_values@,
            types: self.types@,
            aliases: self.aliases@,
            modules: self.modules@,
        }
    }

    /// Every type alias in scope or in a compiled module stands for a type
    /// without unification variables.
    pub open spec fn aliases_closed(&self) -> bool {
        &&& entries_closed(self.scope_types@)
        &&& forall|m: int|
            0 <= m < self.modules@.len() ==> entries_closed(#[trigger] self.modules@[m].types@)
    }

    /// A checker for the module `module_name`, with the prelude in scope.
    pub fn new(module_name: Vec<char>) -> (c: Checker)
        ensures
            c.wf(),
            c.aliases_closed(),
            c.locals@.len() == 0,
            c.subst.binds@.len() == 0,
            c.module_name == module_name,
            is_prelude_types(c.types@),
            c.type_names@.len() == c.types@.len(),
            forall|i: int| 0 <= i < c.types@.len() ==> (#[trigger] c.type_names@[i])@ == c.types@[i].name@,
            c.modules@.len() == 1,
            is_prelude_module(c.modules@[0]),
            entries_alike(c.scope_types@, c.modules@[0].types@),
            values_alike(c.scope_values@, c.modules@[0].values@),
            c.aliases@.len() == 0,
            c.ann_vars@.len() == 0,
    {
        let types = prelude_types();
        let mut type_names: Vec<Vec<char>> = Vec::new();
        let mut i: usize = 0;
        while i < types.len()
            invariant
                i <= types@.len(),
                type_names@.len() == i,
                forall|k: int| 0 <= k < i ==> (#[trigger] type_names@[k])@ == types@[k].name@,
            decreases types@.len() - i,
        {
            type_names.push(copy_name(&types[i].name));
            i = i + 1;
        }
        let prelude = prelude_module();
        let scope_types = copy_entries(&prelude.types);
        let scope_values = copy_values(&prelude.values);
        let mut modules: Vec<ModuleInterface> = Vec::new();
        modules.push(prelude);
        Checker {
            subst: Subst::new(),
            types,
            type_names,
            modules,
            module_name,
            scope_types,
            scope_values,
            aliases: Vec::new(),
            locals: Vec::new(),
            ann_vars: Vec::new(),
        }
    }

    /// A new unification variable.
    pub fn fresh_var(&mut self) -> (t: Ty)
        requires
            old(self).wf(),
        ensures
            final(self).wf(),
            crate::types::absorbs(final(self).subst.binds@, old(self).subst.binds@),
            final(self).scope_values@ == old(self).scope_values@,
            final(self).scope_types@ == old(self).scope_types@,
            final(self).modules@ == old(self).modules@,
            final(self).types@ == old(self).types@,
            final(self).aliases@ == old(self).aliases@,
            final(self).type_names@ == old(self).type_names@,
            final(self).locals@ == old(self).locals@,
            final(self).subst.binds@ == old(self).subst.binds@.push(None),
            t == Ty::Var(old(self).subst.binds@.len() as usize),
    {
        let ghost s_entry = self.subst.binds@;
        let ghost sv_entry = self.scope_values@;
        let ghost env_entry = self.env();
        let ghost tn_entry = self.type_names@;
        let ghost st_entry = self.scope_types@;
        let ghost md_entry = self.modules@;
        let ghost l_entry = self.locals@;
        Ty::Var(self.subst.fresh())
    }

    /// The text of a type as currently resolved.
    pub fn describe(&self, t: &Ty) -> (r: Vec<char>)
        ensures
            r@ == crate::print::type_text(
                self.type_names@,
                crate::types::apply(self.subst.binds@, *t),
            ),
    {
        let resolved = self.subst.resolve(t);
        print_type(&self.type_names, &resolved)
    }

    /// Makes the two types equal, or reports both as printed.
    pub fn unify_types(&mut self, expected: &Ty, given: &Ty) -> (r: Result<(), TypeError>)
        requires
            old(self).wf(),
        ensures
            final(self).wf(),
            crate::types::absorbs(final(self).subst.binds@, old(self).subst.binds@),
            final(self).scope_values@ == old(self).scope_values@,
            final(self).scope_types@ == old(self).scope_types@,
            final(self).modules@ == old(self).modules@,
            final(self).types@ == old(self).types@,
            final(self).aliases@ == old(self).aliases@,
            final(self).type_names@ == old(self).type_names@,
            final(self).locals == old(self).locals,
            r is Ok ==> crate::types::apply(final(self).subst.binds@, *expected)
                == crate::types::apply(final(self).subst.binds@, *given),
            r is Ok ==> crate::types::most_general(
                final(self).subst.binds@,
                old(self).subst.binds@,
                *expected,
                *given,
            ),
            r matches Err(e) ==> e is RecursiveType || e is TooDeep || e is TypeMismatch,
            r matches Err(e) && e is RecursiveType ==> crate::types::no_unifier(
                old(self).subst.binds@,
                *expected,
                *given,
            ),
            crate::types::apply(old(self).subst.binds@, *expected) == crate::types::apply(
                old(self).subst.binds@,
                *given,
            ) && crate::types::apply(old(self).subst.binds@, *expected) is Con ==> r is Ok,
    {
        let ghost s_entry = self.subst.binds@;
        let ghost sv_entry = self.scope_values@;
        let ghost env_entry = self.env();
        let ghost tn_entry = self.type_names@;
        let ghost st_entry = self.scope_types@;
        let ghost md_entry = self.modules@;
        match self.subst.unify(expected, given, unify_depth()) {
            Ok(()) => Ok(()),
            Err(UnifyError::Recursive) => Err(TypeError::RecursiveType),
            Err(UnifyError::TooDeep) => Err(TypeError::TooDeep),
            Err(UnifyError::Mismatch) | Err(UnifyError::UnknownVariable) => Err(
                TypeError::TypeMismatch { expected: self.describe(expected), given: self.describe(given) },
            ),
        }
    }

    /// A copy of a scheme with new variables for its quantified ones.
    pub fn instantiate(&mut self, scheme: &Ty) -> (r: Ty)
        requires
            old(self).wf(),
        ensures
            final(self).wf(),
            crate::types::absorbs(final(self).subst.binds@, old(self).subst.binds@),
            final(self).scope_values@ == old(self).scope_values@,
            final(self).scope_types@ == old(self).scope_types@,
            final(self).modules@ == old(self).modules@,
            final(self).types@ == old(self).types@,
            final(self).aliases@ == old(self).aliases@,
            final(self).type_names@ == old(self).type_names@,
            final(self).locals@ == old(self).locals@,
            crate::types::no_gens(r),
            exists|f: spec_fn(usize) -> Ty| r == #[trigger] crate::env::gens_by(*scheme, f),
    {
        let ghost s_entry = self.subst.binds@;
        let ghost sv_entry = self.scope_values@;
        let ghost env_entry = self.env();
        let ghost tn_entry = self.type_names@;
        let ghost st_entry = self.scope_types@;
        let ghost md_entry = self.modules@;
        let ghost l_entry = self.locals@;
        let mut map: Vec<(usize, usize)> = Vec::new();
        instantiate_with(scheme, &mut self.subst, &mut map)
    }

    /// The type of a top level value at one of its uses.
    fn reference_value(&mut self, v: &ValueInfo) -> (r: Ty)
        requires
            old(self).wf(),
        ensures
            v.generalized ==> exists|f: spec_fn(usize) -> Ty|
                r == #[trigger] crate::env::gens_by(v.scheme, f),
            !v.generalized ==> r == v.scheme,
            final(self).wf(),
            crate::types::absorbs(final(self).subst.binds@, old(self).subst.binds@),
            final(self).scope_values@ == old(self).scope_values@,
            final(self).scope_types@ == old(self).scope_types@,
            final(self).modules@ == old(self).modules@,
            final(self).types@ == old(self).types@,
            final(self).aliases@ == old(self).aliases@,
            final(self).type_names@ == old(self).type_names@,
            final(self).locals@ == old(self).locals@,
    {
        let ghost s_entry = self.subst.binds@;
        let ghost sv_entry = self.scope_values@;
        let ghost env_entry = self.env();
        let ghost tn_entry = self.type_names@;
        let ghost st_entry = self.scope_types@;
        let ghost md_entry = self.modules@;
        let ghost l_entry = self.locals@;
        if v.generalized {
            self.instantiate(&v.scheme)
        } else {
            copy_ty(&v.scheme)
        }
    }

    /// The resolved type with its variables quantified. Where the resolved
    /// type holds no quantified variable, it prints as the resolved type
    /// does.
    pub fn generalize(&self, t: &Ty) -> (r: Ty)
        ensures
            crate::types::no_vars(r),
            crate::types::no_gens(crate::types::apply(self.subst.binds@, *t)) ==> forall|
                tab: Seq<Vec<char>>,
            |
                #![trigger crate::print::type_text(tab, r)]
                crate::print::type_text(tab, r) == crate::print::type_text(
                    tab,
                    crate::types::apply(self.subst.binds@, *t),
                ),
    {
        let resolved = self.subst.resolve(t);
        let mut seen: Vec<usize> = Vec::new();
        assert(seen@.no_duplicates());
        let r = generalize_resolved(&resolved, &mut seen);
        proof {
            if crate::types::no_gens(resolved) {
                assert(seen@.is_prefix_of(seen@)) by {
                    assert(seen@.subrange(0, seen@.len() as int) =~= seen@);
                }
                assert(r == crate::print::renamed(resolved, crate::env::swap_keys(seen@)));
                assert forall|tab: Seq<Vec<char>>|
                    #![trigger crate::print::type_text(tab, r)]
                    crate::print::type_text(tab, r) == crate::print::type_text(tab, resolved) by {
                    crate::env::lemma_generalized_prints_alike(tab, resolved, seen@, r);
                }
            }
        }
        r
    }

    /// The module named by an alias, when the name is not shadowed by a
    /// local variable.
    fn module_alias(&self, name: &Vec<char>) -> (r: Option<usize>)
        ensures
            r matches Some(m) ==> m < self.modules@.len() && exists|a: int|
                #[trigger] crate::typing::last_alias(self.aliases@, name@, a) && self.aliases@[a].1 == m,
            r is Some <==> crate::typing::names_module(
                self.env(),
                bindings(self.locals@),
                Expr::Var(*name),
            ),
    {
        if find_local(&self.locals, name).is_some() {
            proof {
                let i = choose|i: int| 0 <= i < self.locals@.len() && self.locals@[i].name@ == name@;
                assert(bindings(self.locals@)[i].0 == name@);
            }
            return None;
        }
        proof {
            assert forall|k: int| 0 <= k < bindings(self.locals@).len() implies (#[trigger] bindings(
                self.locals@,
            )[k]).0 != name@ by {
                assert(self.locals@[k].name@ != name@);
            }
        }
        let mut i = self.aliases.len();
        while i > 0
            invariant
                i <= self.aliases@.len(),
                forall|k: int| i <= k < self.aliases@.len() ==> self.aliases@[k].0@ != name@,
            decreases i,
        {
            i = i - 1;
            if same_name(&self.aliases[i].0, name) {
                let m = self.aliases[i].1;
                proof {
                    assert(crate::typing::last_alias(self.aliases@, name@, i as int));
                    assert forall|a: int| #[trigger] crate::typing::last_alias(self.aliases@, name@, a) implies a
                        == i by {
                        if a < i {
                            assert(self.aliases@[i as int].0@ == name@);
                        }
                    }
                }
                if m < self.modules.len() {
                    proof {
                        let e = Expr::Var(*name);
                        assert(e->Var_0@ == name@);
                        assert(crate::typing::last_alias(self.env().aliases, e->Var_0@, i as int)
                            && self.env().aliases[i as int].1 < self.env().modules.len());
                    }
                    return Some(m);
                }
                return None;
            }
        }
        None
    }

    /// An importable value of a module.
    fn module_value(&self, m: usize, name: &Vec<char>) -> (r: Option<ValueInfo>)
        requires
            m < self.modules@.len(),
        ensures
            r matches Some(v) ==> exists|j: int|
                crate::typing::last_value(self.modules@[m as int].values@, name@, j) && v.scheme
                    == self.modules@[m as int].values@[j].scheme && v.generalized
                    == self.modules@[m as int].values@[j].generalized && crate::env::labels_alike(
                    v.labels@,
                    self.modules@[m as int].values@[j].labels@,
                ),
            r is Some <==> crate::typing::importable_value(self.modules@[m as int].values@, name@),
    {
        let vs = &self.modules[m].values;
        match find_value(vs, name) {
            Some(i) => {
                proof {
                    assert(crate::typing::last_value(vs@, name@, i as int));
                    assert forall|j: int| #[trigger] crate::typing::last_value(vs@, name@, j) implies j
                        == i by {
                        crate::typing::lemma_last_value_unique(vs@, name@, j, i as int);
                    }
                }
                if vs[i].publicity.is_importable() {
                    Some(copy_value(&vs[i]))
                } else {
                    None
                }
            },
            None => None,
        }
    }

    /// An importable type of a module.
    fn module_type(&self, m: usize, name: &Vec<char>) -> (r: Option<TypeRef>)
        requires
            m < self.modules@.len(),
        ensures
            r matches Some(TypeRef::Alias(_, t)) ==> (entries_closed(self.modules@[m as int].types@)
                ==> crate::types::no_vars(t)),
            r matches Some(k) ==> crate::typing::importable_type(self.modules@[m as int].types@, name@, k),
            r is None ==> forall|k: TypeRef|
                !crate::typing::importable_type(self.modules@[m as int].types@, name@, k),
    {
        let ts = &self.modules[m].types;
        match find_type(ts, name) {
            Some(i) => {
                proof {
                    assert(crate::typing::last_entry(ts@, name@, i as int));
                    assert forall|j: int| #[trigger] crate::typing::last_entry(ts@, name@, j) implies j
                        == i by {
                        crate::typing::lemma_last_entry_unique(ts@, name@, j, i as int);
                    }
                }
                if ts[i].publicity.is_importable() {
                    Some(copy_type_ref(&ts[i].kind))
                } else {
                    None
                }
            },
            None => None,
        }
    }

    /// A value referred to by name, possibly through a module alias.
    fn lookup_value(&self, module: &Option<Vec<char>>, name: &Vec<char>) -> (r: Result<
        ValueInfo,
        TypeError,
    >)
        ensures
            module is None ==> (r matches Ok(v) ==> exists|j: int|
                crate::typing::last_value(self.scope_values@, name@, j) && v.scheme
                    == self.scope_values@[j].scheme && v.generalized
                    == self.scope_values@[j].generalized && crate::env::labels_alike(
                    v.labels@,
                    self.scope_values@[j].labels@,
                )),
            module matches Some(m) ==> (r is Ok ==> crate::typing::names_module(
                self.env(),
                bindings(self.locals@),
                Expr::Var(*m),
            )),
            module matches Some(m) ==> (r matches Ok(v) ==> exists|a: int, j: int|
                #[trigger] crate::typing::last_alias(self.aliases@, m@, a) && self.aliases@[a].1
                    < self.modules@.len() && #[trigger] crate::typing::last_value(
                    self.modules@[self.aliases@[a].1 as int].values@,
                    name@,
                    j,
                ) && v.scheme == self.modules@[self.aliases@[a].1 as int].values@[j].scheme
                    && v.generalized == self.modules@[self.aliases@[a].1 as int].values@[j].generalized
                    && crate::env::labels_alike(
                    v.labels@,
                    self.modules@[self.aliases@[a].1 as int].values@[j].labels@,
                )),
            r matches Ok(v) ==> (crate::typing::named_value(
                self.env(),
                bindings(self.locals@),
                crate::typing::ctor_name(*module, *name),
            ) matches Some(vn) && vn.scheme == v.scheme && vn.generalized == v.generalized
                && crate::env::labels_alike(v.labels@, vn.labels@)),
            module is None ==> (r is Ok <==> exists|j: int|
                crate::typing::last_value(self.scope_values@, name@, j)),
            module is None ==> (r matches Err(e) ==> e is UnknownVariable && e->UnknownVariable_0@
                == name@),
            module matches Some(m) ==> (r is Ok <==> crate::typing::names_module(
                self.env(),
                bindings(self.locals@),
                Expr::Var(*m),
            ) && crate::typing::importable_value(
                crate::typing::aliased_module(self.env(), m@).values@,
                name@,
            )),
            module matches Some(m) ==> (r matches Err(e) ==> (if crate::typing::names_module(
                self.env(),
                bindings(self.locals@),
                Expr::Var(*m),
            ) {
                e is UnknownModuleValue && e->UnknownModuleValue_0@ == name@
            } else {
                e is UnknownModule && e->UnknownModule_0@ == m@
            })),
    {
        let ghost env = self.env();
        let ghost ctx = bindings(self.locals@);
        match module {
            Some(m) => {
                let mo = self.module_alias(m);
                proof {
                    if mo is Some {
                        let mi = mo->0;
                        let a = choose|a: int|
                            #[trigger] crate::typing::last_alias(self.aliases@, m@, a) && self.aliases@[a].1
                                == mi;
                        let ac = choose|a: int|
                            crate::typing::last_alias(env.aliases, m@, a) && env.aliases[a].1
                                < env.modules.len();
                        assert(crate::typing::names_module(env, ctx, Expr::Var(*m)));
                        crate::typing::lemma_last_alias_unique(self.aliases@, m@, a, ac);
                        assert(crate::typing::aliased_module(env, m@) == self.modules@[mi as int]);
                    }
                }
                match mo {
                    Some(mi) => match self.module_value(mi, name) {
                        Some(v) => {
                            proof {
                                let a = choose|a: int|
                                    #[trigger] crate::typing::last_alias(self.aliases@, m@, a)
                                        && self.aliases@[a].1 == mi;
                                let vs = self.modules@[mi as int].values@;
                                let j = choose|j: int|
                                    crate::typing::last_value(vs, name@, j) && v.scheme == vs[j].scheme
                                        && v.generalized == vs[j].generalized
                                        && crate::env::labels_alike(v.labels@, vs[j].labels@);
                                let inner = Expr::Var(*m);
                                assert(crate::typing::names_module(env, ctx, inner));
                                let ac = choose|a: int|
                                    crate::typing::last_alias(env.aliases, inner->Var_0@, a)
                                        && env.aliases[a].1 < env.modules.len();
                                if ac < a {
                                    assert(env.aliases[a].0@ == m@);
                                } else if a < ac {
                                    assert(env.aliases[ac].0@ == m@);
                                }
                                let jc = choose|j: int| crate::typing::last_value(vs, name@, j);
                                if jc < j {
                                    assert(vs[j].name@ == name@);
                                } else if j < jc {
                                    assert(vs[jc].name@ == name@);
                                }
                                assert(ac == a);
                                assert(jc == j);
                                let ce = crate::typing::ctor_name(*module, *name);
                                assert(ce == Expr::Access(Box::new(inner), *name));
                                assert(ce->Access_1@ == name@);
                                assert(crate::typing::names_module(env, ctx, *ce->Access_0));
                                assert(env.modules[env.aliases[ac].1 as int].values@ == vs);
                                assert(crate::typing::named_value(env, ctx, ce) == Some(vs[jc]));
                            }
                            Ok(v)
                        },
                        None => Err(TypeError::UnknownModuleValue(copy_name(name))),
                    },
                    None => Err(TypeError::UnknownModule(copy_name(m))),
                }
            },
            None => match find_value(&self.scope_values, name) {
                Some(i) => {
                    proof {
                        assert(crate::typing::last_value(self.scope_values@, name@, i as int));
                        let jc = choose|j: int| crate::typing::last_value(env.vals, name@, j);
                        if jc < i {
                            assert(env.vals[i as int].name@ == name@);
                        } else if i < jc {
                            assert(env.vals[jc].name@ == name@);
                        }
                        assert(crate::typing::ctor_name(*module, *name) == Expr::Var(*name));
                        assert(env.vals == self.scope_values@);
                        assert(exists|j: int| crate::typing::last_value(env.vals, name@, j));
                        assert(jc == i as int);
                        let ev = Expr::Var(*name);
                        assert(ev->Var_0@ == name@);
                        assert(crate::typing::named_value(env, ctx, ev) == Some(env.vals[jc]));
                        assert(crate::typing::named_value(
                            env,
                            ctx,
                            crate::typing::ctor_name(*module, *name),
                        ) == Some(env.vals[i as int]));
                    }
                    Ok(copy_value(&self.scope_values[i]))
                },
                None => Err(TypeError::UnknownVariable(copy_name(name))),
            },
        }
    }

    /// A type referred to by name, possibly through a module alias.
    fn lookup_type(&self, module: &Option<Vec<char>>, name: &Vec<char>) -> (r: Result<
        TypeRef,
        TypeError,
    >)
        ensures
            r matches Ok(TypeRef::Alias(_, t)) ==> (self.aliases_closed() ==> crate::types::no_vars(
                t,
            )),
            module is None ==> (r is Ok <==> exists|i: int|
                crate::typing::last_entry(self.scope_types@, name@, i)),
            module is None ==> (r matches Ok(k) ==> exists|i: int|
                crate::typing::last_entry(self.scope_types@, name@, i) && self.scope_types@[i].kind == k),
            module is None ==> (r matches Err(e) ==> e is UnknownType && e->UnknownType_0@ == name@),
            module matches Some(m) ==> (r matches Ok(k) ==> crate::typing::importable_type(
                crate::typing::aliased_module(self.env(), m@).types@,
                name@,
                k,
            )),
            module matches Some(m) ==> (r is Err <==> !crate::typing::names_module(
                self.env(),
                bindings(self.locals@),
                Expr::Var(*m),
            ) || forall|k: TypeRef|
                !crate::typing::importable_type(
                    crate::typing::aliased_module(self.env(), m@).types@,
                    name@,
                    k,
                )),
            r is Ok <==> named_type(*self, *module, name@) is Some,
            r matches Ok(k) ==> named_type(*self, *module, name@) == Some(k),
            module matches Some(m) ==> (r matches Err(e) ==> (if crate::typing::names_module(
                self.env(),
                bindings(self.locals@),
                Expr::Var(*m),
            ) {
                e is UnknownType && e->UnknownType_0@ == name@
            } else {
                e is UnknownModule && e->UnknownModule_0@ == m@
            })),
    {
        let ghost env = self.env();
        let ghost ctx = bindings(self.locals@);
        match module {
            Some(m) => {
                let mo = self.module_alias(m);
                proof {
                    if mo is Some {
                        let mi = mo->0;
                        let a = choose|a: int|
                            #[trigger] crate::typing::last_alias(self.aliases@, m@, a) && self.aliases@[a].1
                                == mi;
                        let ac = choose|a: int|
                            crate::typing::last_alias(env.aliases, m@, a) && env.aliases[a].1
                                < env.modules.len();
                        assert(crate::typing::names_module(env, ctx, Expr::Var(*m)));
                        crate::typing::lemma_last_alias_unique(self.aliases@, m@, a, ac);
                        assert(crate::typing::aliased_module(env, m@) == self.modules@[mi as int]);
                    }
                }
                match mo {
                    Some(mi) => match self.module_type(mi, name) {
                        Some(t) => {
                            proof {
                                let ts = self.modules@[mi as int].types@;
                                assert forall|k: TypeRef|
                                    #[trigger] crate::typing::importable_type(ts, name@, k) implies k == t by {
                                    let i1 = choose|i: int|
                                        #[trigger] crate::typing::last_entry(ts, name@, i)
                                            && ts[i].publicity.importable() && ts[i].kind == k;
                                    let i2 = choose|i: int|
                                        #[trigger] crate::typing::last_entry(ts, name@, i)
                                            && ts[i].publicity.importable() && ts[i].kind == t;
                                    crate::typing::lemma_last_entry_unique(ts, name@, i1, i2);
                                }
                            }
                            Ok(t)
                        },
                        None => Err(TypeError::UnknownType(copy_name(name))),
                    },
                    None => Err(TypeError::UnknownModule(copy_name(m))),
                }
            },
            None => match find_type(&self.scope_types, name) {
                Some(i) => {
                    proof {
                        assert(crate::typing::last_entry(self.scope_types@, name@, i as int));
                        let ic = choose|i2: int| crate::typing::last_entry(self.scope_types@, name@, i2);
                        crate::typing::lemma_last_entry_unique(self.scope_types@, name@, ic, i as int);
                    }
                    Ok(copy_type_ref(&self.scope_types[i].kind))
                },
                None => Err(TypeError::UnknownType(copy_name(name))),
            },
        }
    }

    /// The type an annotation stands for. Named type variables are looked
    /// up in `ann_vars`; with `allow_new`, unknown ones get new variables.
    pub fn hydrate(&mut self, ast: &TypeAst, allow_new: bool, fuel: usize) -> (r: Result<
        Ty,
        TypeError,
    >)
        requires
            old(self).wf(),
        ensures
            !allow_new ==> final(self).ann_vars@ == old(self).ann_vars@,
            r matches Ok(t) ==> (!allow_new && vars_closed(old(self).ann_vars@)
                && old(self).aliases_closed() ==> crate::types::no_vars(t)),
            final(self).wf(),
            crate::types::absorbs(final(self).subst.binds@, old(self).subst.binds@),
            final(self).scope_values@ == old(self).scope_values@,
            final(self).scope_types@ == old(self).scope_types@,
            final(self).modules@ == old(self).modules@,
            final(self).types@ == old(self).types@,
            final(self).aliases@ == old(self).aliases@,
            final(self).type_names@ == old(self).type_names@,
            final(self).locals@ == old(self).locals@,
            final(self).scope_types@ == old(self).scope_types@,
            r is Ok <==> annotation_ok(*old(self), *ast, allow_new, fuel as nat),
        decreases fuel,
    {
        let ghost c0 = *self;
        let ghost s_entry = self.subst.binds@;
        let ghost sv_entry = self.scope_values@;
        let ghost env_entry = self.env();
        let ghost tn_entry = self.type_names@;
        let ghost st_entry = self.scope_types@;
        let ghost md_entry = self.modules@;
        let ghost l_entry = self.locals@;
        let ghost av0 = self.ann_vars@;
        let ghost closing = !allow_new && vars_closed(av0) && self.aliases_closed();
        if fuel == 0 {
            return Err(TypeError::TooDeep);
        }
        match ast {
            TypeAst::Hole => {
                if allow_new {
                    Ok(self.fresh_var())
                } else {
                    Err(TypeError::UnknownType(chars_of("_")))
                }
            },
            TypeAst::Var(n) => {
                let mut i: usize = 0;
                while i < self.ann_vars.len()
                    invariant
                        i <= self.ann_vars@.len(),
                        forall|k: int| 0 <= k < i ==> (#[trigger] self.ann_vars@[k]).0@ != n@,
                    decreases self.ann_vars@.len() - i,
                {
                    if same_name(&self.ann_vars[i].0, n) {
                        return Ok(copy_ty(&self.ann_vars[i].1));
                    }
                    i = i + 1;
                }
                if !allow_new {
                    return Err(TypeError::UnknownType(copy_name(n)));
                }
                let v = self.fresh_var();
                self.ann_vars.push((copy_name(n), copy_ty(&v)));
                Ok(v)
            },
            TypeAst::Fn(params, ret) => {
                let mut ps: Vec<Ty> = Vec::new();
                let mut i: usize = 0;
                while i < params.len()
                    invariant
                        self.wf(),
                        crate::types::absorbs(self.subst.binds@, s_entry),
                        self.scope_values@ == sv_entry,
                        self.scope_types@ == st_entry,
                        self.modules@ == md_entry,
                        self.types@ == env_entry.types,
                        self.aliases@ == env_entry.aliases,
                        self.type_names@ == tn_entry,
                        self.locals@ == l_entry,
                        i <= params@.len(),
                        !allow_new ==> self.ann_vars@ == av0,
                        c0.scope_types@ == self.scope_types@,
                        c0.env() == self.env(),
                        c0.locals@ == self.locals@,
                        c0.types@ == self.types@,
                        allow_new || c0.ann_vars@ == self.ann_vars@,
                        forall|k: int| 0 <= k < i ==> annotation_ok(c0, #[trigger] params@[k], allow_new, (fuel - 1) as nat),
                        closing ==> forall|k: int| 0 <= k < ps@.len() ==> crate::types::no_vars(#[trigger] ps@[k]),
                    decreases params@.len() - i,
                {
                    let ghost cn = *self;
                    let hp = self.hydrate(&params[i], allow_new, fuel - 1);
                    proof {
                        lemma_annotation_ok_frame(c0, cn, params@[i as int], allow_new, (fuel - 1) as nat);
                    }
                    let p = match hp {
                        Ok(p) => p,
                        Err(e) => {
                            return Err(e);
                        },
                    };
                    ps.push(p);
                    i = i + 1;
                }
                let ghost cn = *self;
                let hr = self.hydrate(ret, allow_new, fuel - 1);
                proof {
                    lemma_annotation_ok_frame(c0, cn, **ret, allow_new, (fuel - 1) as nat);
                }
                let r = match hr {
                    Ok(r) => r,
                    Err(e) => {
                        return Err(e);
                    },
                };
                let ft = fn_ty(&ps, r);
                proof {
                    if closing {
                        assert forall|k: int| 0 <= k < ps@.push(r).len() implies crate::types::no_vars(
                            #[trigger] ps@.push(r)[k],
                        ) by {
                            if k < ps@.len() {
                                assert(ps@.push(r)[k] == ps@[k]);
                            }
                        }
                        lemma_applied_no_vars(Ty::FnCon(ps@.len() as usize), ps@.push(r));
                    }
                }
                Ok(ft)
            },
            TypeAst::Tuple(elems) => {
                let mut es: Vec<Ty> = Vec::new();
                let mut i: usize = 0;
                while i < elems.len()
                    invariant
                        self.wf(),
                        crate::types::absorbs(self.subst.binds@, s_entry),
                        self.scope_values@ == sv_entry,
                        self.scope_types@ == st_entry,
                        self.modules@ == md_entry,
                        self.types@ == env_entry.types,
                        self.aliases@ == env_entry.aliases,
                        self.type_names@ == tn_entry,
                        self.locals@ == l_entry,
                        i <= elems@.len(),
                        !allow_new ==> self.ann_vars@ == av0,
                        c0.scope_types@ == self.scope_types@,
                        c0.env() == self.env(),
                        c0.locals@ == self.locals@,
                        c0.types@ == self.types@,
                        allow_new || c0.ann_vars@ == self.ann_vars@,
                        forall|k: int| 0 <= k < i ==> annotation_ok(c0, #[trigger] elems@[k], allow_new, (fuel - 1) as nat),
                        closing ==> forall|k: int| 0 <= k < es@.len() ==> crate::types::no_vars(#[trigger] es@[k]),
                    decreases elems@.len() - i,
                {
                    let ghost cn = *self;
                    let he = self.hydrate(&elems[i], allow_new, fuel - 1);
                    proof {
                        lemma_annotation_ok_frame(c0, cn, elems@[i as int], allow_new, (fuel - 1) as nat);
                    }
                    let e = match he {
                        Ok(e) => e,
                        Err(er) => {
                            return Err(er);
                        },
                    };
                    es.push(e);
                    i = i + 1;
                }
                proof {
                    if closing {
                        lemma_applied_no_vars(Ty::TupleCon(es@.len() as usize), es@);
                    }
                }
                Ok(tuple_ty(&es))
            },
            TypeAst::Named { module, name, args } => {
                let kind = self.lookup_type(module, name)?;
                let mut tys: Vec<Ty> = Vec::new();
                let mut i: usize = 0;
                while i < args.len()
                    invariant
                        self.wf(),
                        crate::types::absorbs(self.subst.binds@, s_entry),
                        self.scope_values@ == sv_entry,
                        self.scope_types@ == st_entry,
                        self.modules@ == md_entry,
                        self.types@ == env_entry.types,
                        self.aliases@ == env_entry.aliases,
                        self.type_names@ == tn_entry,
                        self.locals@ == l_entry,
                        i <= args@.len(),
                        tys@.len() == i,
                        !allow_new ==> self.ann_vars@ == av0,
                        c0.scope_types@ == self.scope_types@,
                        c0.env() == self.env(),
                        c0.locals@ == self.locals@,
                        c0.types@ == self.types@,
                        allow_new || c0.ann_vars@ == self.ann_vars@,
                        forall|k: int| 0 <= k < i ==> annotation_ok(c0, #[trigger] args@[k], allow_new, (fuel - 1) as nat),
                        closing ==> forall|k: int| 0 <= k < tys@.len() ==> crate::types::no_vars(#[trigger] tys@[k]),
                    decreases args@.len() - i,
                {
                    let ghost cn = *self;
                    let ha = self.hydrate(&args[i], allow_new, fuel - 1);
                    proof {
                        lemma_annotation_ok_frame(c0, cn, args@[i as int], allow_new, (fuel - 1) as nat);
                    }
                    let a = match ha {
                        Ok(a) => a,
                        Err(e) => {
                            return Err(e);
                        },
                    };
                    tys.push(a);
                    i = i + 1;
                }
                match kind {
                    TypeRef::Con(c) => {
                        if c < self.types.len() && self.types[c].arity != tys.len() {
                            return Err(
                                TypeError::IncorrectTypeArity {
                                    name: copy_name(name),
                                    expected: self.types[c].arity,
                                    given: tys.len(),
                                },
                            );
                        }
                        proof {
                            if closing {
                                lemma_applied_no_vars(Ty::Con(c), tys@);
                            }
                        }
                        Ok(crate::env::apply_all(Ty::Con(c), &tys))
                    },
                    TypeRef::Alias(arity, scheme) => {
                        if arity != tys.len() {
                            return Err(
                                TypeError::IncorrectTypeArity {
                                    name: copy_name(name),
                                    expected: arity,
                                    given: tys.len(),
                                },
                            );
                        }
                        proof {
                            if closing {
                                lemma_gens_replaced_no_vars(scheme, tys@);
                            }
                        }
                        Ok(subst_gens(&scheme, &tys))
                    },
                }
            },
        }
    }

    /// Hydrates an optional annotation, or makes a new variable.
    fn hydrate_or_fresh(&mut self, ast: &Option<TypeAst>, fuel: usize) -> (r: Result<Ty, TypeError>)
        requires
            old(self).wf(),
        ensures
            final(self).wf(),
            crate::types::absorbs(final(self).subst.binds@, old(self).subst.binds@),
            final(self).scope_values@ == old(self).scope_values@,
            final(self).scope_types@ == old(self).scope_types@,
            final(self).modules@ == old(self).modules@,
            final(self).types@ == old(self).types@,
            final(self).aliases@ == old(self).aliases@,
            final(self).type_names@ == old(self).type_names@,
            final(self).locals@ == old(self).locals@,
            r is Ok <==> (ast is None || crate::infer::annotation_ok(*old(self), ast->0, true, fuel as nat)),
            ast is None ==> r == Ok::<Ty, TypeError>(Ty::Var(old(self).subst.binds@.len() as usize)),
    {
        let ghost s_entry = self.subst.binds@;
        let ghost sv_entry = self.scope_values@;
        let ghost env_entry = self.env();
        let ghost tn_entry = self.type_names@;
        let ghost st_entry = self.scope_types@;
        let ghost md_entry = self.modules@;
        let ghost l_entry = self.locals@;
        match ast {
            Some(a) => self.hydrate(a, true, fuel),
            None => Ok(self.fresh_var()),
        }
    }

    fn push_local(&mut self, name: &Vec<char>, ty: &Ty, variant: Option<usize>)
        ensures
            final(self).locals@.len() == old(self).locals@.len() + 1,
            extends_locals(old(self).locals@, final(self).locals@),
            final(self).locals@.last().name@ == name@,
            final(self).locals@.last().ty == *ty,
            final(self).locals@.last().variant == variant,
            bindings(final(self).locals@) == bindings(old(self).locals@).push((name@, *ty)),
            final(self).subst == old(self).subst,
            final(self).scope_values@ == old(self).scope_values@,
            final(self).scope_types@ == old(self).scope_types@,
            final(self).modules@ == old(self).modules@,
            final(self).types@ == old(self).types@,
            final(self).aliases@ == old(self).aliases@,
            final(self).type_names@ == old(self).type_names@,
    {
        let l = Local { name: copy_name(name), ty: copy_ty(ty), variant };
        proof {
            crate::typing::lemma_bindings_push(self.locals@, l);
        }
        self.locals.push(l);
    }

    fn truncate_locals(&mut self, mark: usize)
        ensures
            mark <= old(self).locals@.len() ==> final(self).locals@ =~= old(self).locals@.subrange(
                0,
                mark as int,
            ),
            mark > old(self).locals@.len() ==> final(self).locals@ =~= old(self).locals@,
            final(self).subst == old(self).subst,
            final(self).scope_values@ == old(self).scope_values@,
            final(self).scope_types@ == old(self).scope_types@,
            final(self).modules@ == old(self).modules@,
            final(self).types@ == old(self).types@,
            final(self).aliases@ == old(self).aliases@,
            final(self).type_names@ == old(self).type_names@,
    {
        while self.locals.len() > mark
            invariant
                self.locals@.len() <= old(self).locals@.len(),
                self.locals@ =~= old(self).locals@.subrange(0, self.locals@.len() as int),
                mark <= old(self).locals@.len() ==> mark <= self.locals@.len(),
                mark > old(self).locals@.len() ==> self.locals@.len() == old(self).locals@.len(),
                self.subst == old(self).subst,
                self.scope_values@ == old(self).scope_values@,
                self.scope_types@ == old(self).scope_types@,
                self.modules@ == old(self).modules@,
                self.types@ == old(self).types@,
                self.aliases@ == old(self).aliases@,
                self.type_names@ == old(self).type_names@,
            decreases self.locals@.len(),
        {
            self.locals.pop();
        }
    }

    /// Infers the type of an expression.
    pub fn infer_expr(&mut self, e: &Expr, fuel: usize) -> (r: Result<Typed, TypeError>)
        requires
            old(self).wf(),
        ensures
            final(self).wf(),
            crate::types::absorbs(final(self).subst.binds@, old(self).subst.binds@),
            final(self).scope_values@ == old(self).scope_values@,
            final(self).scope_types@ == old(self).scope_types@,
            final(self).modules@ == old(self).modules@,
            final(self).types@ == old(self).types@,
            final(self).aliases@ == old(self).aliases@,
            final(self).type_names@ == old(self).type_names@,
            r is Ok ==> final(self).locals@ == old(self).locals@,
            r matches Ok(t) ==> result_shape(*e, t.ty),
            fuel > 0 && (*e is Int || *e is Float || *e is Str) ==> r is Ok,
            fuel > 0 && *e is Hole ==> r matches Err(TypeError::UnexpectedHole),
            forall|i: int|
                fuel > 1 && *e is Var && #[trigger] crate::env::innermost_local(
                    old(self).locals@,
                    e->Var_0@,
                    i,
                ) ==> (r matches Ok(t) && t.ty == old(self).locals@[i].ty),
            r matches Ok(t) ==> sound_expr(final(self).subst.binds@, old(self).env(), bindings(old(self).locals@), *e, t.ty),
            fuel > 4 && (*e matches Expr::Bin(op, a, b) && operand_type(op) matches Some(o) && plainly_of(
                old(self).subst.binds@,
                old(self).locals@,
                *a,
                o,
            ) && plainly_of(old(self).subst.binds@, old(self).locals@, *b, o)) ==> (r matches Ok(t)
                && t.ty == binop_result(e->Bin_0)),
        decreases fuel, 2nat,
    {
        let ghost s_entry = self.subst.binds@;
        let ghost sv_entry = self.scope_values@;
        let ghost env_entry = self.env();
        let ghost tn_entry = self.type_names@;
        let ghost st_entry = self.scope_types@;
        let ghost md_entry = self.modules@;
        let ghost l_entry = self.locals@;
        if fuel == 0 {
            return Err(TypeError::TooDeep);
        }
        match e {
            Expr::Int => Ok(Typed { ty: int_ty(), variant: None }),
            Expr::Float => Ok(Typed { ty: float_ty(), variant: None }),
            Expr::Str => Ok(Typed { ty: string_ty(), variant: None }),
            Expr::Hole => Err(TypeError::UnexpectedHole),
            Expr::Var(_) | Expr::Access(_, _) => {
                let c = self.infer_callee(e, fuel - 1)?;
                Ok(c.typed)
            },
            Expr::List(elems, tail) => {
                let elem = self.fresh_var();
                let mut i: usize = 0;
                while i < elems.len()
                    invariant
                        self.wf(),
                        crate::types::absorbs(self.subst.binds@, s_entry),
                        self.scope_values@ == sv_entry,
                        self.scope_types@ == st_entry,
                        self.modules@ == md_entry,
                        self.types@ == env_entry.types,
                        self.aliases@ == env_entry.aliases,
                        self.type_names@ == tn_entry,
                        self.locals@ == l_entry,
                        i <= elems@.len(),
                        forall|k: int|
                            0 <= k < i ==> sound_expr(
                                self.subst.binds@,
                                env_entry,
                                bindings(l_entry),
                                #[trigger] elems@[k],
                                elem,
                            ),
                    decreases elems@.len() - i,
                {
                    let ghost s_before = self.subst.binds@;
                    self.infer_expected(&elems[i], &elem, fuel - 1)?;
                    proof {
                        assert forall|k: int| 0 <= k < i + 1 implies sound_expr(
                            self.subst.binds@,
                            env_entry,
                            bindings(l_entry),
                            #[trigger] elems@[k],
                            elem,
                        ) by {
                            if k < i {
                                lemma_sound_expr_refine(
                                    self.subst.binds@,
                                    env_entry,
                                    s_before,
                                    bindings(l_entry),
                                    elems@[k],
                                    elem,
                                );
                            }
                        }
                    }
                    i = i + 1;
                }
                let lt = list_ty(copy_ty(&elem));
                let ghost s_loop = self.subst.binds@;
                match tail {
                    Some(t) => {
                        self.infer_expected(t, &lt, fuel - 1)?;
                    },
                    None => {},
                }
                proof {
                    assert forall|k: int| 0 <= k < elems@.len() implies sound_expr(
                        self.subst.binds@,
                        env_entry,
                        bindings(l_entry),
                        #[trigger] elems@[k],
                        elem,
                    ) by {
                        lemma_sound_expr_refine(
                            self.subst.binds@,
                            env_entry,
                            s_loop,
                            bindings(l_entry),
                            elems@[k],
                            elem,
                        );
                    }
                    crate::typing::lemma_sound_list(self.subst.binds@, env_entry, bindings(l_entry), *e, elem);
                }
                Ok(Typed { ty: lt, variant: None })
            },
            Expr::Tuple(elems) => {
                let mut tys: Vec<Ty> = Vec::new();
                let mut i: usize = 0;
                while i < elems.len()
                    invariant
                        self.wf(),
                        crate::types::absorbs(self.subst.binds@, s_entry),
                        self.scope_values@ == sv_entry,
                        self.scope_types@ == st_entry,
                        self.modules@ == md_entry,
                        self.types@ == env_entry.types,
                        self.aliases@ == env_entry.aliases,
                        self.type_names@ == tn_entry,
                        self.locals@ == l_entry,
                        i <= elems@.len(),
                        tys@.len() == i as int,
                        forall|k: int|
                            0 <= k < i ==> sound_expr(
                                self.subst.binds@,
                                env_entry,
                                bindings(l_entry),
                                #[trigger] elems@[k],
                                tys@[k],
                            ),
                    decreases elems@.len() - i,
                {
                    let ghost s_before = self.subst.binds@;
                    let t = self.infer_expr(&elems[i], fuel - 1)?;
                    tys.push(t.ty);
                    proof {
                        assert forall|k: int| 0 <= k < i + 1 implies sound_expr(
                            self.subst.binds@,
                            env_entry,
                            bindings(l_entry),
                            #[trigger] elems@[k],
                            tys@[k],
                        ) by {
                            if k < i {
                                lemma_sound_expr_refine(
                                    self.subst.binds@,
                                    env_entry,
                                    s_before,
                                    bindings(l_entry),
                                    elems@[k],
                                    tys@[k],
                                );
                            }
                        }
                    }
                    i = i + 1;
                }
                proof {
                    crate::typing::lemma_sound_tuple(self.subst.binds@, env_entry, bindings(l_entry), *e, tys@);
                }
                Ok(Typed { ty: tuple_ty(&tys), variant: None })
            },
            Expr::TupleIndex(inner, index) => {
                let t = self.infer_expr(inner, fuel - 1)?;
                let resolved = self.subst.resolve(&t.ty);
                match tuple_parts(&resolved) {
                    Some(elems) => {
                        if *index < elems.len() {
                            proof {
                                crate::typing::lemma_sound_tuple_index(
                                    self.subst.binds@,
                                    env_entry,
                                    bindings(l_entry),
                                    *e,
                                    t.ty,
                                    elems@,
                                );
                            }
                            Ok(Typed { ty: copy_ty(&elems[*index]), variant: None })
                        } else {
                            Err(TypeError::OutOfBoundsTupleIndex(*index))
                        }
                    },
                    None => Err(TypeError::NotATuple),
                }
            },
            Expr::Fn(params, ret, body) => {
                let t = self.infer_fn(params, ret, body, None, fuel - 1)?;
                proof {
                    let (ps, rt) = choose|ps: Seq<Ty>, rt: Ty|
                        #![trigger crate::env::fn_type(ps, rt)]
                        ps.len() == params@.len() && t == crate::env::fn_type(ps, rt)
                            && crate::typing::sound_stmts(
                            self.subst.binds@,
                            env_entry,
                            crate::typing::bind_params(
                                bindings(l_entry),
                                params@,
                                ps,
                                params@.len(),
                            ),
                            body@,
                            rt,
                        );
                    crate::typing::lemma_sound_fn(self.subst.binds@, env_entry, bindings(l_entry), *e, ps, rt);
                }
                Ok(Typed { ty: t, variant: None })
            },
            Expr::Call(f, args) => {
                let callee = self.infer_callee(f, fuel - 1)?;
                let ghost s_callee = self.subst.binds@;
                let ghost ft = callee.typed.ty;
                let t = self.apply_call(callee, args, None, fuel - 1)?;
                proof {
                    let (ps, slots) = choose|ps: Seq<Ty>, slots: Seq<Option<usize>>|
                        #![trigger crate::env::fn_type(ps, t.ty), slots.len()]
                        ps.len() == slots.len() && crate::types::apply(self.subst.binds@, ft)
                            == crate::types::apply(self.subst.binds@, crate::env::fn_type(ps, t.ty))
                            && (forall|q: int|
                            0 <= q < slots.len() ==> (#[trigger] slots[q] matches Some(j) ==> j
                                < args@.len() && sound_expr(
                                self.subst.binds@,
                                env_entry,
                                bindings(l_entry),
                                args@[j as int].value,
                                ps[q],
                            ))) && (forall|a2: int|
                             0 <= a2 < args@.len() ==> #[trigger] crate::args::placed(slots, a2)) && ((
                        forall|i: int| 0 <= i < args@.len() ==> (#[trigger] args@[i]).label is None)
                            ==> slots.len() == args@.len() && forall|q: int|
                            0 <= q < slots.len() ==> #[trigger] slots[q] == Some(q as usize));
                    lemma_sound_expr_refine(self.subst.binds@, env_entry, s_callee, bindings(l_entry), **f, ft);
                    crate::typing::lemma_sound_call(
                        self.subst.binds@,
                        env_entry,
                        bindings(l_entry),
                        *e,
                        ft,
                        ps,
                        slots,
                        t.ty,
                    );
                }
                Ok(t)
            },
            Expr::Bin(op, a, b) => {
                let t = self.infer_binop(op, a, b, fuel - 1)?;
                proof {
                    let x = choose|x: Ty|
                        #![trigger sound_expr(self.subst.binds@, env_entry, bindings(l_entry), **a, x)]
                        (operand_type(*op) matches Some(o) ==> x == o) && sound_expr(
                            self.subst.binds@,
                            env_entry,
                            bindings(l_entry),
                            **a,
                            x,
                        ) && sound_expr(self.subst.binds@, env_entry, bindings(l_entry), **b, x);
                    crate::typing::lemma_sound_bin(self.subst.binds@, env_entry, bindings(l_entry), *e, x);
                }
                Ok(t)
            },
            Expr::Pipe(l, r) => {
                let t = self.infer_pipe(l, r, fuel - 1)?;
                proof {
                    assert(Expr::Pipe(Box::new(**l), Box::new(**r)) == *e);
                }
                Ok(t)
            },
            Expr::NegInt(inner) => {
                self.infer_expected(inner, &int_ty(), fuel - 1)?;
                proof {
                    crate::typing::lemma_sound_unary(self.subst.binds@, env_entry, bindings(l_entry), *e, Ty::Con(0));
                }
                Ok(Typed { ty: int_ty(), variant: None })
            },
            Expr::Not(inner) => {
                self.infer_expected(inner, &bool_ty(), fuel - 1)?;
                proof {
                    crate::typing::lemma_sound_unary(self.subst.binds@, env_entry, bindings(l_entry), *e, Ty::Con(3));
                }
                Ok(Typed { ty: bool_ty(), variant: None })
            },
            Expr::Case(subjects, clauses) => {
                let t = self.infer_case(subjects, clauses, fuel - 1)?;
                proof {
                    let stys = choose|stys: Seq<Ty>|
                        #[trigger] crate::typing::sound_all(
                            self.subst.binds@,
                            env_entry,
                            bindings(l_entry),
                            subjects@,
                            stys,
                        ) && forall|c: int|
                            0 <= c < clauses@.len() ==> crate::typing::sound_clause(
                                self.subst.binds@,
                                env_entry,
                                bindings(l_entry),
                                #[trigger] clauses@[c],
                                stys,
                                t.ty,
                            );
                    crate::typing::lemma_sound_case(self.subst.binds@, env_entry, bindings(l_entry), *e, stys, t.ty);
                }
                Ok(t)
            },
            Expr::Block(stmts) => {
                let t = self.infer_stmts(stmts, fuel - 1)?;
                proof {
                    crate::typing::lemma_sound_block(self.subst.binds@, env_entry, bindings(l_entry), *e, t.ty);
                }
                Ok(t)
            },
            Expr::Todo(msg) | Expr::Panic(msg) => {
                match msg {
                    Some(m) => {
                        self.infer_expected(m, &string_ty(), fuel - 1)?;
                    },
                    None => {},
                }
                let ghost s_msg = self.subst.binds@;
                let t = self.fresh_var();
                proof {
                    match msg {
                        Some(m) => {
                            lemma_sound_expr_refine(
                                self.subst.binds@,
                                env_entry,
                                s_msg,
                                bindings(l_entry),
                                **m,
                                Ty::Con(2),
                            );
                        },
                        None => {},
                    }
                    crate::typing::lemma_sound_message(self.subst.binds@, env_entry, bindings(l_entry), *e, t);
                }
                Ok(Typed { ty: t, variant: None })
            },
            Expr::BitArray(segs) => {
                let mut i: usize = 0;
                while i < segs.len()
                    invariant
                        self.wf(),
                        crate::types::absorbs(self.subst.binds@, s_entry),
                        self.scope_values@ == sv_entry,
                        self.scope_types@ == st_entry,
                        self.modules@ == md_entry,
                        self.types@ == env_entry.types,
                        self.aliases@ == env_entry.aliases,
                        self.type_names@ == tn_entry,
                        self.locals@ == l_entry,
                        i <= segs@.len(),
                        forall|k: int|
                            0 <= k < i ==> sound_expr(
                                self.subst.binds@,
                                env_entry,
                                bindings(l_entry),
                                (#[trigger] segs@[k]).value,
                                crate::typing::segment_type(segs@[k].kind),
                            ),
                    decreases segs@.len() - i,
                {
                    let ghost s_before = self.subst.binds@;
                    let expected = segment_ty(&segs[i].kind);
                    self.infer_expected(&segs[i].value, &expected, fuel - 1)?;
                    proof {
                        assert forall|k: int| 0 <= k < i + 1 implies sound_expr(
                            self.subst.binds@,
                            env_entry,
                            bindings(l_entry),
                            (#[trigger] segs@[k]).value,
                            crate::typing::segment_type(segs@[k].kind),
                        ) by {
                            if k < i {
                                lemma_sound_expr_refine(
                                    self.subst.binds@,
                                    env_entry,
                                    s_before,
                                    bindings(l_entry),
                                    segs@[k].value,
                                    crate::typing::segment_type(segs@[k].kind),
                                );
                            }
                        }
                    }
                    i = i + 1;
                }
                proof {
                    crate::typing::lemma_sound_bit_array(self.subst.binds@, env_entry, bindings(l_entry), *e);
                }
                Ok(Typed { ty: bit_array_ty(), variant: None })
            },
            Expr::Update(ctor, base, args) => self.infer_update(ctor, base, args, fuel - 1),
        }
    }

    /// Infers an expression and makes its type equal to `expected`. A
    /// function literal learns the types of its parameters from `expected`.
    pub fn infer_expected(&mut self, e: &Expr, expected: &Ty, fuel: usize) -> (r: Result<
        Typed,
        TypeError,
    >)
        requires
            old(self).wf(),
        ensures
            final(self).wf(),
            crate::types::absorbs(final(self).subst.binds@, old(self).subst.binds@),
            final(self).scope_values@ == old(self).scope_values@,
            final(self).scope_types@ == old(self).scope_types@,
            final(self).modules@ == old(self).modules@,
            final(self).types@ == old(self).types@,
            final(self).aliases@ == old(self).aliases@,
            final(self).type_names@ == old(self).type_names@,
            r is Ok ==> final(self).locals@ == old(self).locals@,
            r matches Ok(t) ==> crate::types::apply(final(self).subst.binds@, *expected)
                == crate::types::apply(final(self).subst.binds@, t.ty),
            r matches Ok(t) ==> sound_expr(final(self).subst.binds@, old(self).env(), bindings(old(self).locals@), *e, t.ty),
            r matches Ok(t) ==> sound_expr(
                final(self).subst.binds@,
                old(self).env(),
                bindings(old(self).locals@),
                *e,
                *expected,
            ),
            fuel > 1 && literal_type(*e) is Some && crate::types::apply(
                old(self).subst.binds@,
                *expected,
            ) == literal_type(*e)->0 ==> r is Ok,
            fuel > 2 && crate::types::apply(old(self).subst.binds@, *expected) is Con && plainly_of(
                old(self).subst.binds@,
                old(self).locals@,
                *e,
                crate::types::apply(old(self).subst.binds@, *expected),
            ) ==> r is Ok,
        decreases fuel, 3nat,
    {
        let ghost s_entry = self.subst.binds@;
        let ghost sv_entry = self.scope_values@;
        let ghost env_entry = self.env();
        let ghost tn_entry = self.type_names@;
        let ghost st_entry = self.scope_types@;
        let ghost md_entry = self.modules@;
        let ghost l_entry = self.locals@;
        if fuel == 0 {
            return Err(TypeError::TooDeep);
        }
        let typed = match e {
            Expr::Fn(params, ret, body) => {
                let resolved = self.subst.resolve(expected);
                let hint = match fn_parts(&resolved) {
                    Some((ps, _)) => if ps.len() == params.len() {
                        Some(ps)
                    } else {
                        None
                    },
                    None => None,
                };
                let t = self.infer_fn(params, ret, body, hint, fuel - 1)?;
                proof {
                    let (ps, rt) = choose|ps: Seq<Ty>, rt: Ty|
                        #![trigger crate::env::fn_type(ps, rt)]
                        ps.len() == params@.len() && t == crate::env::fn_type(ps, rt)
                            && crate::typing::sound_stmts(
                            self.subst.binds@,
                            env_entry,
                            crate::typing::bind_params(
                                bindings(l_entry),
                                params@,
                                ps,
                                params@.len(),
                            ),
                            body@,
                            rt,
                        );
                    crate::typing::lemma_sound_fn(self.subst.binds@, env_entry, bindings(l_entry), *e, ps, rt);
                }
                Typed { ty: t, variant: None }
            },
            _ => self.infer_expr(e, fuel - 1)?,
        };
        let ghost s_typed = self.subst.binds@;
        proof {
            let t0 = crate::types::apply(s_entry, *expected);
            if fuel > 2 && t0 is Con && plainly_of(s_entry, l_entry, *e, t0) {
                assert(crate::types::apply(s_typed, crate::types::apply(s_entry, *expected))
                    == crate::types::apply(s_typed, *expected));
                if literal_type(*e) != Some(t0) {
                    let i = choose|i: int|
                        #[trigger] crate::env::innermost_local(l_entry, e->Var_0@, i)
                            && crate::types::apply(s_entry, l_entry[i].ty) == t0;
                    assert(typed.ty == l_entry[i].ty);
                    assert(crate::types::apply(s_typed, crate::types::apply(s_entry, l_entry[i].ty))
                        == crate::types::apply(s_typed, l_entry[i].ty));
                }
            }
        }
        self.unify_types(expected, &typed.ty)?;
        proof {
            lemma_sound_expr_refine(self.subst.binds@, env_entry, s_typed, bindings(l_entry), *e, typed.ty);
            lemma_sound_expr_respects(self.subst.binds@, env_entry, bindings(l_entry), *e, typed.ty, *expected);
        }
        Ok(typed)
    }

    /// Infers a function literal. `hint` gives the expected parameter types.
    pub fn infer_fn(
        &mut self,
        params: &Vec<FnParam>,
        ret: &Option<TypeAst>,
        body: &Vec<Stmt>,
        hint: Option<Vec<Ty>>,
        fuel: usize,
    ) -> (r: Result<Ty, TypeError>)
        requires
            old(self).wf(),
        ensures
            final(self).wf(),
            crate::types::absorbs(final(self).subst.binds@, old(self).subst.binds@),
            final(self).scope_values@ == old(self).scope_values@,
            final(self).scope_types@ == old(self).scope_types@,
            final(self).modules@ == old(self).modules@,
            final(self).types@ == old(self).types@,
            final(self).aliases@ == old(self).aliases@,
            final(self).type_names@ == old(self).type_names@,
            r is Ok ==> final(self).locals@ == old(self).locals@,
            r matches Ok(t) ==> exists|ts: Seq<Ty>, rt: Ty|
                #![trigger crate::env::fn_type(ts, rt)]
                ts.len() == params@.len() && t == crate::env::fn_type(ts, rt)
                    && crate::typing::sound_stmts(
                    final(self).subst.binds@,
                    old(self).env(),
                    crate::typing::bind_params(bindings(old(self).locals@), params@, ts, params@.len()),
                    body@,
                    rt,
                ),
        decreases fuel, 1nat,
    {
        let ghost s_entry = self.subst.binds@;
        let ghost sv_entry = self.scope_values@;
        let ghost env_entry = self.env();
        let ghost tn_entry = self.type_names@;
        let ghost st_entry = self.scope_types@;
        let ghost md_entry = self.modules@;
        let ghost l_entry = self.locals@;
        if fuel == 0 {
            return Err(TypeError::TooDeep);
        }
        let mark = self.locals.len();
        let mut ptys: Vec<Ty> = Vec::new();
        let mut i: usize = 0;
        while i < params.len()
            invariant
                self.wf(),
                crate::types::absorbs(self.subst.binds@, s_entry),
                self.scope_values@ == sv_entry,
                self.scope_types@ == st_entry,
                self.modules@ == md_entry,
                self.types@ == env_entry.types,
                self.aliases@ == env_entry.aliases,
                self.type_names@ == tn_entry,
                extends_locals(l_entry, self.locals@),
                i <= params@.len(),
                ptys@.len() == i as int,
                bindings(self.locals@) == crate::typing::bind_params(
                    bindings(l_entry),
                    params@,
                    ptys@,
                    i as nat,
                ),
            decreases params@.len() - i,
        {
            let p = &params[i];
            let t = self.hydrate_or_fresh(&p.annotation, fuel - 1)?;
            match &hint {
                Some(h) => {
                    if i < h.len() {
                        self.unify_types(&t, &h[i])?;
                    }
                },
                None => {},
            }
            let ghost before = ptys@;
            match &p.name {
                Some(n) => self.push_local(n, &t, None),
                None => {},
            }
            ptys.push(t);
            proof {
                crate::typing::lemma_bind_params_prefix(
                    bindings(l_entry),
                    params@,
                    before,
                    ptys@,
                    i as nat,
                );
            }
            i = i + 1;
        }
        let rt = self.hydrate_or_fresh(ret, fuel - 1)?;
        let body_typed = self.infer_stmts(body, fuel - 1)?;
        let ghost s_body = self.subst.binds@;
        let ghost body_ctx = bindings(self.locals@);
        self.unify_types(&rt, &body_typed.ty)?;
        proof {
            crate::typing::lemma_sound_stmts_refine(
                self.subst.binds@,
                env_entry,
                s_body,
                body_ctx,
                body@,
                body_typed.ty,
            );
            crate::typing::lemma_sound_stmts_respects(
                self.subst.binds@,
                env_entry,
                body_ctx,
                body@,
                body_typed.ty,
                rt,
            );
        }
        self.truncate_locals(mark);
        let ft = fn_ty(&ptys, rt);
        proof {
            assert(crate::env::fn_type(ptys@, rt) == ft);
        }
        Ok(ft)
    }

    /// The type of a reference to a variable or a module value, with the
    /// labels of its parameters when it is a top level function or a
    /// constructor.
    pub fn infer_callee(&mut self, f: &Expr, fuel: usize) -> (r: Result<Callee, TypeError>)
        requires
            old(self).wf(),
        ensures
            final(self).wf(),
            crate::types::absorbs(final(self).subst.binds@, old(self).subst.binds@),
            final(self).scope_values@ == old(self).scope_values@,
            final(self).scope_types@ == old(self).scope_types@,
            final(self).modules@ == old(self).modules@,
            final(self).types@ == old(self).types@,
            final(self).aliases@ == old(self).aliases@,
            final(self).type_names@ == old(self).type_names@,
            r is Ok ==> final(self).locals@ == old(self).locals@,
            forall|i: int|
                fuel > 0 && *f is Var && #[trigger] crate::env::innermost_local(
                    old(self).locals@,
                    f->Var_0@,
                    i,
                ) ==> (r matches Ok(c) && c.typed.ty == old(self).locals@[i].ty
                    && c.typed.variant == old(self).locals@[i].variant),
            r matches Ok(c) ==> sound_expr(
                final(self).subst.binds@,
                old(self).env(),
                bindings(old(self).locals@),
                *f,
                c.typed.ty,
            ),
        decreases fuel, 4nat,
    {
        let ghost s_entry = self.subst.binds@;
        let ghost sv_entry = self.scope_values@;
        let ghost env_entry = self.env();
        let ghost tn_entry = self.type_names@;
        let ghost st_entry = self.scope_types@;
        let ghost md_entry = self.modules@;
        let ghost l_entry = self.locals@;
        if fuel == 0 {
            return Err(TypeError::TooDeep);
        }
        match f {
            Expr::Var(name) => {
                match find_local(&self.locals, name) {
                    Some(i) => {
                        let l = &self.locals[i];
                        proof {
                            crate::typing::lemma_innermost_bindings(l_entry, name@, i as int);
                            crate::typing::lemma_sound_local(
                                self.subst.binds@,
                                env_entry,
                                bindings(l_entry),
                                *f,
                                i as int,
                            );
                        }
                        return Ok(
                            Callee {
                                typed: Typed { ty: copy_ty(&l.ty), variant: l.variant },
                                labels: Vec::new(),
                                ctor: None,
                            },
                        );
                    },
                    None => {},
                }
                let v = self.lookup_value(&None, name)?;
                let t = self.reference_value(&v);
                let variant = match v.ctor {
                    Some((_, k)) => Some(k),
                    None => None,
                };
                proof {
                    let ctx = bindings(l_entry);
                    assert forall|k: int| 0 <= k < ctx.len() implies #[trigger] ctx[k].0 != name@ by {
                        assert(l_entry[k].name@ != name@);
                    }
                    let j = choose|j: int|
                        crate::typing::last_value(sv_entry, name@, j) && v.scheme == sv_entry[j].scheme
                            && v.generalized == sv_entry[j].generalized;
                    crate::typing::lemma_sound_global(self.subst.binds@, env_entry, ctx, *f, j, t);
                }
                Ok(Callee { typed: Typed { ty: t, variant }, labels: copy_labels(&v.labels), ctor: v.ctor })
            },
            Expr::Access(inner, label) => {
                match &**inner {
                    Expr::Var(m) => {
                        if self.module_alias(m).is_some() {
                            let v = self.lookup_value(&Some(copy_name(m)), label)?;
                            let t = self.reference_value(&v);
                            let variant = match v.ctor {
                                Some((_, k)) => Some(k),
                                None => None,
                            };
                            proof {
                                let (a, j) = choose|a: int, j: int|
                                    #[trigger] crate::typing::last_alias(env_entry.aliases, m@, a)
                                        && env_entry.aliases[a].1 < env_entry.modules.len()
                                        && #[trigger] crate::typing::last_value(
                                        env_entry.modules[env_entry.aliases[a].1 as int].values@,
                                        label@,
                                        j,
                                    ) && v.scheme
                                        == env_entry.modules[env_entry.aliases[a].1 as int].values@[j].scheme
                                        && v.generalized
                                        == env_entry.modules[env_entry.aliases[a].1 as int].values@[j].generalized;
                                crate::typing::lemma_sound_qualified(
                                    self.subst.binds@,
                                    env_entry,
                                    bindings(l_entry),
                                    *f,
                                    a,
                                    j,
                                    t,
                                );
                            }
                            return Ok(
                                Callee {
                                    typed: Typed { ty: t, variant },
                                    labels: copy_labels(&v.labels),
                                    ctor: v.ctor,
                                },
                            );
                        }
                    },
                    _ => {},
                }
                proof {
                    assert(!crate::typing::names_module(env_entry, bindings(l_entry), **inner));
                }
                let recv = self.infer_expr(inner, fuel - 1)?;
                let ghost s_recv = self.subst.binds@;
                let ghost recv_ty = recv.ty;
                let t = self.field_access(recv, label)?;
                proof {
                    lemma_sound_expr_refine(
                        self.subst.binds@,
                        env_entry,
                        s_recv,
                        bindings(l_entry),
                        **inner,
                        recv_ty,
                    );
                    crate::typing::lemma_sound_field(
                        self.subst.binds@,
                        env_entry,
                        bindings(l_entry),
                        *f,
                        recv_ty,
                        t.ty,
                    );
                }
                Ok(Callee { typed: t, labels: Vec::new(), ctor: None })
            },
            _ => {
                let t = self.infer_expr(f, fuel - 1)?;
                Ok(Callee { typed: t, labels: Vec::new(), ctor: None })
            },
        }
    }

    /// The type of `recv.label`.
    fn field_access(&mut self, recv: Typed, label: &Vec<char>) -> (r: Result<Typed, TypeError>)
        requires
            old(self).wf(),
        ensures
            final(self).wf(),
            crate::types::absorbs(final(self).subst.binds@, old(self).subst.binds@),
            final(self).scope_values@ == old(self).scope_values@,
            final(self).scope_types@ == old(self).scope_types@,
            final(self).modules@ == old(self).modules@,
            final(self).types@ == old(self).types@,
            final(self).aliases@ == old(self).aliases@,
            final(self).type_names@ == old(self).type_names@,
            final(self).locals@ == old(self).locals@,
            r matches Ok(t) ==> crate::typing::field_typed(
                final(self).subst.binds@,
                old(self).types@,
                recv.ty,
                label@,
                crate::types::apply(final(self).subst.binds@, t.ty),
            ),
            r is Ok <==> field_lookup_ok(
                old(self).types@,
                crate::types::apply(old(self).subst.binds@, recv.ty),
                recv.variant,
                label@,
            ),
            r matches Err(e) ==> e is UnknownRecordField && e->UnknownRecordField_0@ == label@,
            r matches Ok(t) ==> t.variant is None,
    {
        let ghost s_entry = self.subst.binds@;
        let ghost sv_entry = self.scope_values@;
        let ghost env_entry = self.env();
        let ghost tn_entry = self.type_names@;
        let ghost st_entry = self.scope_types@;
        let ghost md_entry = self.modules@;
        let ghost l_entry = self.locals@;
        let resolved = self.subst.resolve(&recv.ty);
        let (c, args) = match named_parts(&resolved) {
            Some(p) => p,
            None => {
                return Err(TypeError::UnknownRecordField(copy_name(label)));
            },
        };
        proof {
            crate::env::lemma_applied_spine(Ty::Con(c), args@);
        }
        if c >= self.types.len() {
            return Err(TypeError::UnknownRecordField(copy_name(label)));
        }
        let variants = &self.types[c].variants;
        if variants.len() == 0 {
            return Err(TypeError::UnknownRecordField(copy_name(label)));
        }
        let chosen: usize = match recv.variant {
            Some(k) => if k < variants.len() {
                k
            } else {
                0
            },
            None => 0,
        };
        let fields = &variants[chosen].fields;
        let mut idx: usize = 0;
        let mut found = false;
        while idx < fields.len()
            invariant
                idx <= fields@.len(),
                !found,
                forall|k: int|
                    0 <= k < idx ==> !((#[trigger] fields@[k]).label is Some && fields@[k].label->0@ == label@),
            decreases fields@.len() - idx,
        {
            match &fields[idx].label {
                Some(l) => {
                    if same_name(l, label) {
                        found = true;
                        break ;
                    }
                },
                None => {},
            }
            idx = idx + 1;
        }
        proof {
            if !found {
                assert forall|i2: int| !first_field(fields@, label@, i2) by {
                    if 0 <= i2 < fields@.len() {
                        assert(!(fields@[i2].label is Some && fields@[i2].label->0@ == label@));
                    }
                }
            }
        }
        if !found || idx >= fields.len() {
            return Err(TypeError::UnknownRecordField(copy_name(label)));
        }
        proof {
            assert(first_field(fields@, label@, idx as int));
            assert forall|i2: int| #[trigger] first_field(fields@, label@, i2) implies i2 == idx by {
                if i2 < idx {
                    assert(!(fields@[i2].label is Some && fields@[i2].label->0@ == label@));
                } else if idx < i2 {
                    assert(!(fields@[idx as int].label is Some && fields@[idx as int].label->0@ == label@));
                }
            }
        }
        let fty = &fields[idx].ty;
        let known_variant = recv.variant.is_some() || variants.len() == 1;
        if !known_variant {
            let mut k: usize = 0;
            while k < variants.len()
                invariant
                    k <= variants@.len(),
                    forall|k2: int|
                        0 <= k2 < k ==> idx < (#[trigger] variants@[k2]).fields@.len()
                            && variants@[k2].fields@[idx as int].label is Some
                            && variants@[k2].fields@[idx as int].label->0@ == label@
                            && variants@[k2].fields@[idx as int].ty == fields@[idx as int].ty,
                decreases variants@.len() - k,
            {
                let other = &variants[k].fields;
                if idx >= other.len() {
                    return Err(TypeError::UnknownRecordField(copy_name(label)));
                }
                let same_label = match &other[idx].label {
                    Some(l) => same_name(l, label),
                    None => false,
                };
                if !same_label || !ty_equal(&other[idx].ty, fty) {
                    proof {
                        let vs = self.types@[c as int].variants@;
                        assert(vs[chosen as int].fields@ == fields@);
                        assert(!(idx < vs[k as int].fields@.len() && vs[k as int].fields@[idx as int].label
                            is Some && vs[k as int].fields@[idx as int].label->0@ == label@
                            && vs[k as int].fields@[idx as int].ty == fields@[idx as int].ty));
                    }
                    return Err(TypeError::UnknownRecordField(copy_name(label)));
                }
                k = k + 1;
            }
        }
        let ft = subst_gens(fty, &args);
        proof {
            let vs = self.types@[c as int].variants@;
            assert(chosen as int == chosen_variant(vs.len(), recv.variant));
            assert(vs[chosen as int].fields@ == fields@);
            assert(first_field(vs[chosen as int].fields@, label@, idx as int));
            assert(field_lookup_ok(self.types@, resolved, recv.variant, label@));
        }
        proof {
            let types = self.types@;
            crate::types::lemma_apply_idempotent(self.subst.binds@, recv.ty);
            assert(types[c as int].variants@[chosen as int].fields@[idx as int].label->0@ == label@);
            assert(crate::typing::field_typed(
                self.subst.binds@,
                types,
                recv.ty,
                label@,
                crate::types::apply(self.subst.binds@, ft),
            )) by {
                assert(types[c as int].variants@[chosen as int].fields@[idx as int] == fields@[idx as int]);
                assert(crate::env::applied(Ty::Con(c), args@) == resolved);
            }
        }
        Ok(Typed { ty: ft, variant: None })
    }

    /// Applies a callee to arguments; `piped` is a first argument that was
    /// already typed (the left side of a pipe).
    #[verifier::rlimit(40)]
    pub fn apply_call(
        &mut self,
        callee: Callee,
        args: &Vec<Arg>,
        piped: Option<Typed>,
        fuel: usize,
    ) -> (r:
        Result<Typed, TypeError>)
        requires
            old(self).wf(),
        ensures
            final(self).wf(),
            crate::types::absorbs(final(self).subst.binds@, old(self).subst.binds@),
            final(self).scope_values@ == old(self).scope_values@,
            final(self).scope_types@ == old(self).scope_types@,
            final(self).modules@ == old(self).modules@,
            final(self).types@ == old(self).types@,
            final(self).aliases@ == old(self).aliases@,
            final(self).type_names@ == old(self).type_names@,
            r is Ok ==> final(self).locals@ == old(self).locals@,
            r matches Ok(t) ==> exists|ps: Seq<Ty>|
                #![trigger crate::env::fn_type(ps, t.ty)]
                ps.len() == args@.len() + (if piped is Some { 1int } else { 0int })
                    && crate::types::apply(final(self).subst.binds@, callee.typed.ty)
                    == crate::types::apply(
                    final(self).subst.binds@,
                    crate::env::fn_type(ps, t.ty),
                ) && (piped is None && (forall|i: int|
                    0 <= i < args@.len() ==> (#[trigger] args@[i]).label is None) ==> forall|i: int|
                    0 <= i < args@.len() ==> sound_expr(
                        final(self).subst.binds@,
                        old(self).env(),
                        bindings(old(self).locals@),
                        (#[trigger] args@[i]).value,
                        ps[i],
                    )) && (piped is Some && (forall|i: int|
                    0 <= i < args@.len() ==> (#[trigger] args@[i]).label is None) ==> crate::types::apply(
                    final(self).subst.binds@,
                    ps[0],
                ) == crate::types::apply(final(self).subst.binds@, piped->Some_0.ty) && forall|i: int|
                    0 <= i < args@.len() ==> sound_expr(
                        final(self).subst.binds@,
                        old(self).env(),
                        bindings(old(self).locals@),
                        (#[trigger] args@[i]).value,
                        ps[i + 1],
                    )),
            r matches Ok(t) ==> (piped is None ==> exists|ps: Seq<Ty>, slots: Seq<Option<usize>>|
                #![trigger crate::env::fn_type(ps, t.ty), slots.len()]
                ps.len() == slots.len() && crate::types::apply(final(self).subst.binds@, callee.typed.ty)
                    == crate::types::apply(
                    final(self).subst.binds@,
                    crate::env::fn_type(ps, t.ty),
                ) && (forall|q: int|
                    0 <= q < slots.len() ==> (#[trigger] slots[q] matches Some(j) ==> j < args@.len()
                        && sound_expr(
                        final(self).subst.binds@,
                        old(self).env(),
                        bindings(old(self).locals@),
                        args@[j as int].value,
                        ps[q],
                    ))) && (forall|a2: int|
                    0 <= a2 < args@.len() ==> #[trigger] crate::args::placed(slots, a2)) && ((forall|
                    i: int,
                |
                    0 <= i < args@.len() ==> (#[trigger] args@[i]).label is None) ==> slots.len()
                    == args@.len() && forall|q: int|
                    0 <= q < slots.len() ==> #[trigger] slots[q] == Some(q as usize))),
        decreases fuel, 1nat,
    {
        let ghost s_entry = self.subst.binds@;
        let ghost sv_entry = self.scope_values@;
        let ghost env_entry = self.env();
        let ghost tn_entry = self.type_names@;
        let ghost st_entry = self.scope_types@;
        let ghost md_entry = self.modules@;
        let ghost l_entry = self.locals@;
        if fuel == 0 {
            return Err(TypeError::TooDeep);
        }
        let offset: usize = if piped.is_some() {
            1
        } else {
            0
        };
        if args.len() > usize::MAX - 1 {
            return Err(TypeError::TooDeep);
        }
        let total = args.len() + offset;
        let mut arg_labels: Vec<Option<Vec<char>>> = Vec::new();
        if offset == 1 {
            arg_labels.push(None);
        }
        let mut i: usize = 0;
        while i < args.len()
            invariant
                i <= args@.len(),
                arg_labels@.len() == i + offset,
                offset == 0 ==> forall|k: int|
                    0 <= k < i ==> (#[trigger] arg_labels@[k] is None <==> args@[k].label is None),
                offset == 1 ==> arg_labels@[0] is None,
                offset == 1 ==> forall|k: int|
                    0 <= k < i ==> (#[trigger] arg_labels@[k + 1] is None <==> args@[k].label is None),
            decreases args@.len() - i,
        {
            arg_labels.push(copy_opt_name(&args[i].label));
            i = i + 1;
        }
        let resolved = self.subst.resolve(&callee.typed.ty);
        let ghost s_resolved = self.subst.binds@;
        let (params, ret) = match fn_parts(&resolved) {
            Some(p) => {
                proof {
                    crate::types::lemma_apply_idempotent(s_resolved, callee.typed.ty);
                }
                p
            },
            None => {
                match resolved {
                    Ty::Var(_) => {
                        let mut ps: Vec<Ty> = Vec::new();
                        let mut k: usize = 0;
                        while k < total
                            invariant
                                self.wf(),
                                crate::types::absorbs(self.subst.binds@, s_entry),
                                self.scope_values@ == sv_entry,
                                self.scope_types@ == st_entry,
                                self.modules@ == md_entry,
                                self.types@ == env_entry.types,
                                self.aliases@ == env_entry.aliases,
                                self.type_names@ == tn_entry,
                                self.locals@ == l_entry,
                                k <= total,
                                ps@.len() == k,
                            decreases total - k,
                        {
                            ps.push(self.fresh_var());
                            k = k + 1;
                        }
                        let r = self.fresh_var();
                        let ft = fn_ty(&ps, copy_ty(&r));
                        self.unify_types(&callee.typed.ty, &ft)?;
                        proof {
                            crate::types::lemma_absorbs_refl(self.subst.binds@);
                        }
                        (ps, r)
                    },
                    _ => {
                        return Err(TypeError::NotAFunction);
                    },
                }
            },
        };
        let labels = if callee.labels.len() == params.len() {
            callee.labels
        } else {
            Vec::new()
        };
        let slots = place_args(&labels, params.len(), &arg_labels, false)?;
        let ghost s_call = self.subst.binds@;
        assert(crate::types::apply(s_call, callee.typed.ty) == crate::types::apply(
            s_call,
            crate::env::fn_type(params@, ret),
        ));
        let mut p: usize = 0;
        while p < params.len()
            invariant
                self.wf(),
                crate::types::absorbs(self.subst.binds@, s_entry),
                self.scope_values@ == sv_entry,
                self.scope_types@ == st_entry,
                self.modules@ == md_entry,
                self.types@ == env_entry.types,
                self.aliases@ == env_entry.aliases,
                self.type_names@ == tn_entry,
                self.locals@ == l_entry,
                crate::types::absorbs(self.subst.binds@, s_call),
                p <= params@.len(),
                slots@.len() == params@.len(),
                arg_labels@.len() == args@.len() + offset,
                offset <= 1,
                offset == 1 <==> piped is Some,
                forall|x: int|
                    0 <= x < params@.len() ==> (#[trigger] slots@[x] matches Some(j) ==> j
                        < arg_labels@.len()),
                forall|q: int|
                    0 <= q < p ==> (#[trigger] slots@[q] matches Some(j) ==> (j == 0 && offset == 1
                        ==> piped is Some && crate::types::apply(self.subst.binds@, params@[q])
                        == crate::types::apply(self.subst.binds@, piped->Some_0.ty))),
                forall|q: int|
                    0 <= q < p ==> (#[trigger] slots@[q] matches Some(j) ==> (j >= offset
                        ==> sound_expr(
                        self.subst.binds@,
                        env_entry,
                        bindings(l_entry),
                        args@[j - offset].value,
                        params@[q],
                    ))),
            decreases params@.len() - p,
        {
            let ghost s_before = self.subst.binds@;
            match slots[p] {
                Some(j) => {
                    if offset == 1 && j == 0 {
                        match &piped {
                            Some(pt) => {
                                self.unify_types(&params[p], &pt.ty)?;
                            },
                            None => {},
                        }
                    } else {
                        let a = j - offset;
                        self.infer_expected(&args[a].value, &params[p], fuel - 1)?;
                    }
                },
                None => {},
            }
            proof {
                assert forall|q: int| 0 <= q < p + 1 implies (#[trigger] slots@[q] matches Some(j) ==> (j
                    >= offset ==> sound_expr(
                    self.subst.binds@,
                    env_entry,
                    bindings(l_entry),
                    args@[j - offset].value,
                    params@[q],
                ))) by {
                    if q < p {
                        match slots@[q] {
                            Some(j) => {
                                if j >= offset {
                                    lemma_sound_expr_refine(
                                        self.subst.binds@,
                                        env_entry,
                                        s_before,
                                        bindings(l_entry),
                                        args@[j - offset].value,
                                        params@[q],
                                    );
                                }
                            },
                            None => {},
                        }
                    }
                }
                assert forall|q: int| 0 <= q < p + 1 implies (#[trigger] slots@[q] matches Some(j) ==> (j
                    == 0 && offset == 1 ==> piped is Some && crate::types::apply(
                    self.subst.binds@,
                    params@[q],
                ) == crate::types::apply(self.subst.binds@, piped->Some_0.ty))) by {
                    if q < p && offset == 1 && piped is Some {
                        match slots@[q] {
                            Some(j) => {
                                if j == 0 {
                                    crate::types::lemma_absorbs_keeps_equal(
                                        self.subst.binds@,
                                        s_before,
                                        params@[q],
                                        piped->Some_0.ty,
                                    );
                                }
                            },
                            None => {},
                        }
                    }
                }
            }
            p = p + 1;
        }
        let variant = match callee.ctor {
            Some((_, k)) => Some(k),
            None => None,
        };
        proof {
            crate::types::lemma_absorbs_keeps_equal(
                self.subst.binds@,
                s_call,
                callee.typed.ty,
                crate::env::fn_type(params@, ret),
            );
            if piped is None && (forall|i: int|
                0 <= i < args@.len() ==> (#[trigger] args@[i]).label is None) {
                assert forall|j: int| 0 <= j < arg_labels@.len() implies #[trigger] arg_labels@[j] is None by {
                    assert(args@[j].label is None);
                }
                crate::args::lemma_unlabelled_in_order(labels@, arg_labels@, slots@);
                assert forall|i: int| 0 <= i < args@.len() implies sound_expr(
                    self.subst.binds@,
                    env_entry,
                    bindings(l_entry),
                    (#[trigger] args@[i]).value,
                    params@[i],
                ) by {
                    assert(slots@[i] == Some(i as usize));
                }
            }
            if piped is None {
                assert forall|j: int| 0 <= j < args@.len() implies #[trigger] crate::args::placed(
                    slots@,
                    j,
                ) by {}
            }
            if piped is Some && (forall|i: int|
                0 <= i < args@.len() ==> (#[trigger] args@[i]).label is None) {
                assert forall|j: int| 0 <= j < arg_labels@.len() implies #[trigger] arg_labels@[j] is None by {
                    if j > 0 {
                        assert(args@[j - 1].label is None);
                        assert(arg_labels@[(j - 1) + 1] is None);
                    }
                }
                crate::args::lemma_unlabelled_in_order(labels@, arg_labels@, slots@);
                assert(slots@[0] == Some(0usize));
                assert forall|i: int| 0 <= i < args@.len() implies sound_expr(
                    self.subst.binds@,
                    env_entry,
                    bindings(l_entry),
                    (#[trigger] args@[i]).value,
                    params@[i + 1],
                ) by {
                    assert(slots@[i + 1] == Some((i + 1) as usize));
                }
            }
        }
        Ok(Typed { ty: ret, variant })
    }

    /// Infers `l |> r`.
    fn infer_pipe(&mut self, l: &Expr, r: &Expr, fuel: usize) -> (res: Result<Typed, TypeError>)
        requires
            old(self).wf(),
        ensures
            final(self).wf(),
            crate::types::absorbs(final(self).subst.binds@, old(self).subst.binds@),
            final(self).scope_values@ == old(self).scope_values@,
            final(self).scope_types@ == old(self).scope_types@,
            final(self).modules@ == old(self).modules@,
            final(self).types@ == old(self).types@,
            final(self).aliases@ == old(self).aliases@,
            final(self).type_names@ == old(self).type_names@,
            res is Ok ==> final(self).locals@ == old(self).locals@,
            res matches Ok(t) ==> sound_expr(
                final(self).subst.binds@,
                old(self).env(),
                bindings(old(self).locals@),
                Expr::Pipe(Box::new(*l), Box::new(*r)),
                t.ty,
            ),
        decreases fuel, 1nat,
    {
        let ghost s_entry = self.subst.binds@;
        let ghost sv_entry = self.scope_values@;
        let ghost env_entry = self.env();
        let ghost tn_entry = self.type_names@;
        let ghost st_entry = self.scope_types@;
        let ghost md_entry = self.modules@;
        let ghost l_entry = self.locals@;
        let ghost ctx = bindings(l_entry);
        let ghost e = Expr::Pipe(Box::new(*l), Box::new(*r));
        if fuel == 0 {
            return Err(TypeError::TooDeep);
        }
        let lt = self.infer_expr(l, fuel - 1)?;
        let ghost s_l = self.subst.binds@;
        match r {
            Expr::Call(f, args) => {
                let callee = self.infer_callee(f, fuel - 1)?;
                let ghost s_f = self.subst.binds@;
                let ghost ft = callee.typed.ty;
                let resolved = self.subst.resolve(&callee.typed.ty);
                let insert_first = match fn_parts(&resolved) {
                    Some((ps, _)) => args.len() < usize::MAX && ps.len() == args.len() + 1,
                    None => match resolved {
                        Ty::Var(_) => true,
                        _ => false,
                    },
                };
                if insert_first {
                    let t = self.apply_call(callee, args, Some(lt), fuel - 1)?;
                    proof {
                        let s_now = self.subst.binds@;
                        let ps = choose|ps: Seq<Ty>|
                            #![trigger crate::env::fn_type(ps, t.ty)]
                            ps.len() == args@.len() + 1 && crate::types::apply(s_now, ft)
                                == crate::types::apply(s_now, crate::env::fn_type(ps, t.ty)) && ((forall|
                                i: int,
                            |
                                0 <= i < args@.len() ==> (#[trigger] args@[i]).label is None)
                                ==> crate::types::apply(s_now, ps[0]) == crate::types::apply(
                                s_now,
                                lt.ty,
                            ) && forall|i: int|
                                0 <= i < args@.len() ==> sound_expr(
                                    s_now,
                                    env_entry,
                                    ctx,
                                    (#[trigger] args@[i]).value,
                                    ps[i + 1],
                                ));
                        lemma_sound_expr_refine(s_now, env_entry, s_l, ctx, *l, lt.ty);
                        lemma_sound_expr_refine(s_now, env_entry, s_f, ctx, **f, ft);
                        crate::typing::lemma_sound_pipe_first(s_now, env_entry, ctx, e, lt.ty, ft, ps, t.ty);
                    }
                    Ok(t)
                } else {
                    let inner = self.apply_call(callee, args, None, fuel - 1)?;
                    let ghost s_inner = self.subst.binds@;
                    let ghost ps = choose|ps: Seq<Ty>|
                        #![trigger crate::env::fn_type(ps, inner.ty)]
                        ps.len() == args@.len() && crate::types::apply(s_inner, ft)
                            == crate::types::apply(s_inner, crate::env::fn_type(ps, inner.ty)) && ((forall|
                            i: int,
                        |
                            0 <= i < args@.len() ==> (#[trigger] args@[i]).label is None) ==> forall|
                            i: int,
                        |
                            0 <= i < args@.len() ==> sound_expr(
                                s_inner,
                                env_entry,
                                ctx,
                                (#[trigger] args@[i]).value,
                                ps[i],
                            ));
                    let ghost g = inner.ty;
                    let next = Callee { typed: inner, labels: Vec::new(), ctor: None };
                    let no_args: Vec<Arg> = Vec::new();
                    let t = self.apply_call(next, &no_args, Some(lt), fuel - 1)?;
                    proof {
                        let s_now = self.subst.binds@;
                        let ps2 = choose|ps2: Seq<Ty>|
                            #![trigger crate::env::fn_type(ps2, t.ty)]
                            ps2.len() == 1 && crate::types::apply(s_now, g) == crate::types::apply(
                                s_now,
                                crate::env::fn_type(ps2, t.ty),
                            ) && ((forall|i: int|
                                0 <= i < no_args@.len() ==> (#[trigger] no_args@[i]).label is None)
                                ==> crate::types::apply(s_now, ps2[0]) == crate::types::apply(
                                s_now,
                                lt.ty,
                            ) && forall|i: int|
                                0 <= i < no_args@.len() ==> sound_expr(
                                    s_now,
                                    env_entry,
                                    ctx,
                                    (#[trigger] no_args@[i]).value,
                                    ps2[i + 1],
                                ));
                        assert(ps2 =~= seq![ps2[0]]);
                        lemma_sound_expr_refine(s_now, env_entry, s_l, ctx, *l, lt.ty);
                        lemma_sound_expr_refine(s_now, env_entry, s_f, ctx, **f, ft);
                        crate::types::lemma_absorbs_keeps_equal(
                            s_now,
                            s_inner,
                            ft,
                            crate::env::fn_type(ps, g),
                        );
                        if forall|i: int| 0 <= i < args@.len() ==> (#[trigger] args@[i]).label is None {
                            assert forall|i: int| 0 <= i < args@.len() implies sound_expr(
                                s_now,
                                env_entry,
                                ctx,
                                (#[trigger] args@[i]).value,
                                ps[i],
                            ) by {
                                lemma_sound_expr_refine(s_now, env_entry, s_inner, ctx, args@[i].value, ps[i]);
                            }
                        }
                        crate::typing::lemma_sound_pipe_curried(
                            s_now,
                            env_entry,
                            ctx,
                            e,
                            lt.ty,
                            ft,
                            ps,
                            g,
                            ps2[0],
                            t.ty,
                        );
                    }
                    Ok(t)
                }
            },
            Expr::Fn(params, ret, body) => {
                let mut hint: Vec<Ty> = Vec::new();
                hint.push(copy_ty(&lt.ty));
                let ft = self.infer_fn(params, ret, body, Some(hint), fuel - 1)?;
                proof {
                    let (ps, rt) = choose|ps: Seq<Ty>, rt: Ty|
                        #![trigger crate::env::fn_type(ps, rt)]
                        ps.len() == params@.len() && ft == crate::env::fn_type(ps, rt)
                            && crate::typing::sound_stmts(
                            self.subst.binds@,
                            env_entry,
                            crate::typing::bind_params(ctx, params@, ps, params@.len()),
                            body@,
                            rt,
                        );
                    crate::typing::lemma_sound_fn(self.subst.binds@, env_entry, ctx, *r, ps, rt);
                }
                let ghost s_fn = self.subst.binds@;
                let callee = Callee { typed: Typed { ty: ft, variant: None }, labels: Vec::new(), ctor: None };
                let no_args: Vec<Arg> = Vec::new();
                let t = self.apply_call(callee, &no_args, Some(lt), fuel - 1)?;
                proof {
                    self.pipe_fn_step(ctx, e, *l, *r, lt.ty, s_l, ft, s_fn, no_args@, t.ty);
                }
                Ok(t)
            },
            _ => {
                let callee = self.infer_callee(r, fuel - 1)?;
                let ghost s_fn = self.subst.binds@;
                let ghost ft = callee.typed.ty;
                let no_args: Vec<Arg> = Vec::new();
                let t = self.apply_call(callee, &no_args, Some(lt), fuel - 1)?;
                proof {
                    self.pipe_fn_step(ctx, e, *l, *r, lt.ty, s_l, ft, s_fn, no_args@, t.ty);
                }
                Ok(t)
            },
        }
    }

    /// What a pipe into a function concludes from its parts.
    proof fn pipe_fn_step(
        &self,
        ctx: Seq<(Seq<char>, Ty)>,
        e: Expr,
        l: Expr,
        r: Expr,
        xl: Ty,
        s_l: Seq<Option<Ty>>,
        ft: Ty,
        s_fn: Seq<Option<Ty>>,
        no_args: Seq<Arg>,
        t: Ty,
    )
        requires
            e == Expr::Pipe(Box::new(l), Box::new(r)),
            !(r is Call),
            no_args.len() == 0,
            crate::types::absorbs(self.subst.binds@, s_l),
            crate::types::absorbs(self.subst.binds@, s_fn),
            sound_expr(s_l, self.env(), ctx, l, xl),
            sound_expr(s_fn, self.env(), ctx, r, ft),
            exists|ps: Seq<Ty>|
                #![trigger crate::env::fn_type(ps, t)]
                ps.len() == 1 && crate::types::apply(self.subst.binds@, ft) == crate::types::apply(
                    self.subst.binds@,
                    crate::env::fn_type(ps, t),
                ) && ((forall|i: int| 0 <= i < no_args.len() ==> (#[trigger] no_args[i]).label is None)
                    ==> crate::types::apply(self.subst.binds@, ps[0]) == crate::types::apply(
                    self.subst.binds@,
                    xl,
                )),
        ensures
            sound_expr(self.subst.binds@, self.env(), ctx, e, t),
    {
        let s_now = self.subst.binds@;
        let ps = choose|ps: Seq<Ty>|
            #![trigger crate::env::fn_type(ps, t)]
            ps.len() == 1 && crate::types::apply(s_now, ft) == crate::types::apply(
                s_now,
                crate::env::fn_type(ps, t),
            ) && ((forall|i: int| 0 <= i < no_args.len() ==> (#[trigger] no_args[i]).label is None)
                ==> crate::types::apply(s_now, ps[0]) == crate::types::apply(s_now, xl));
        assert(ps =~= seq![ps[0]]);
        lemma_sound_expr_refine(s_now, self.env(), s_l, ctx, l, xl);
        lemma_sound_expr_refine(s_now, self.env(), s_fn, ctx, r, ft);
        crate::typing::lemma_sound_pipe_fn(s_now, self.env(), ctx, e, xl, ft, ps[0], t);
    }

    fn infer_binop(&mut self, op: &BinOp, a: &Expr, b: &Expr, fuel: usize) -> (r: Result<
        Typed,
        TypeError,
    >)
        requires
            old(self).wf(),
        ensures
            final(self).wf(),
            crate::types::absorbs(final(self).subst.binds@, old(self).subst.binds@),
            final(self).scope_values@ == old(self).scope_values@,
            final(self).scope_types@ == old(self).scope_types@,
            final(self).modules@ == old(self).modules@,
            final(self).types@ == old(self).types@,
            final(self).aliases@ == old(self).aliases@,
            final(self).type_names@ == old(self).type_names@,
            r is Ok ==> final(self).locals@ == old(self).locals@,
            r matches Ok(t) ==> t.ty == binop_result(*op),
            r matches Ok(t) ==> exists|x: Ty|
                #![trigger sound_expr(final(self).subst.binds@, old(self).env(), bindings(old(self).locals@), *a, x)]
                (operand_type(*op) matches Some(o) ==> x == o) && sound_expr(
                    final(self).subst.binds@,
                    old(self).env(),
                    bindings(old(self).locals@),
                    *a,
                    x,
                ) && sound_expr(final(self).subst.binds@, old(self).env(), bindings(old(self).locals@), *b, x),
            fuel > 2 && literal_type(*a) is Some && literal_type(*b) == literal_type(*a) && (
            operand_type(*op) is Some ==> literal_type(*a) == operand_type(*op)) ==> (r matches Ok(t)
                && t.ty == binop_result(*op)),
            fuel > 3 && (operand_type(*op) matches Some(o) && plainly_of(
                old(self).subst.binds@,
                old(self).locals@,
                *a,
                o,
            ) && plainly_of(old(self).subst.binds@, old(self).locals@, *b, o)) ==> (r matches Ok(t)
                && t.ty == binop_result(*op)),
            fuel > 3 && operand_type(*op) is None && (exists|o: Ty|
                #![trigger plainly_of(old(self).subst.binds@, old(self).locals@, *a, o)]
                o is Con && plainly_of(old(self).subst.binds@, old(self).locals@, *a, o) && plainly_of(
                    old(self).subst.binds@,
                    old(self).locals@,
                    *b,
                    o,
                )) ==> (r matches Ok(t) && t.ty == binop_result(*op)),
        decreases fuel, 1nat,
    {
        let ghost s_entry = self.subst.binds@;
        let ghost sv_entry = self.scope_values@;
        let ghost env_entry = self.env();
        let ghost tn_entry = self.type_names@;
        let ghost st_entry = self.scope_types@;
        let ghost md_entry = self.modules@;
        let ghost l_entry = self.locals@;
        if fuel == 0 {
            return Err(TypeError::TooDeep);
        }
        match op {
            BinOp::Eq | BinOp::NotEq => {
                let l = self.infer_expr(a, fuel - 1)?;
                let ghost s_a = self.subst.binds@;
                proof {
                    if fuel > 3 && exists|o: Ty|
                        #![trigger plainly_of(s_entry, l_entry, *a, o)]
                        o is Con && plainly_of(s_entry, l_entry, *a, o) && plainly_of(s_entry, l_entry, *b, o) {
                        let o = choose|o: Ty|
                            #![trigger plainly_of(s_entry, l_entry, *a, o)]
                            o is Con && plainly_of(s_entry, l_entry, *a, o) && plainly_of(
                                s_entry,
                                l_entry,
                                *b,
                                o,
                            );
                        if literal_type(*a) != Some(o) {
                            let i = choose|i: int|
                                #[trigger] crate::env::innermost_local(l_entry, a->Var_0@, i)
                                    && crate::types::apply(s_entry, l_entry[i].ty) == o;
                            assert(l.ty == l_entry[i].ty);
                            assert(crate::types::apply(s_a, crate::types::apply(s_entry, l_entry[i].ty))
                                == crate::types::apply(s_a, l_entry[i].ty));
                        }
                        assert(crate::types::apply(s_a, l.ty) == o);
                        lemma_plainly_kept(s_a, s_entry, l_entry, *b, o);
                    }
                }
                self.infer_expected(b, &l.ty, fuel - 1)?;
                proof {
                    lemma_sound_expr_refine(self.subst.binds@, env_entry, s_a, bindings(l_entry), *a, l.ty);
                }
                Ok(Typed { ty: bool_ty(), variant: None })
            },
            _ => {
                let (operand, result) = match op {
                    BinOp::And | BinOp::Or => (bool_ty(), bool_ty()),
                    BinOp::LtInt | BinOp::GtInt | BinOp::LtEqInt | BinOp::GtEqInt => (
                        int_ty(),
                        bool_ty(),
                    ),
                    BinOp::LtFloat | BinOp::GtFloat | BinOp::LtEqFloat | BinOp::GtEqFloat => (
                        float_ty(),
                        bool_ty(),
                    ),
                    BinOp::Concat => (string_ty(), string_ty()),
                    BinOp::AddFloat | BinOp::SubFloat | BinOp::MulFloat | BinOp::DivFloat => (
                        float_ty(),
                        float_ty(),
                    ),
                    _ => (int_ty(), int_ty()),
                };
                assert(operand_type(*op) == Some(operand));
                self.infer_expected(a, &operand, fuel - 1)?;
                let ghost s_a = self.subst.binds@;
                proof {
                    if fuel > 3 && plainly_of(s_entry, l_entry, *b, operand) {
                        lemma_plainly_kept(s_a, s_entry, l_entry, *b, operand);
                    }
                }
                self.infer_expected(b, &operand, fuel - 1)?;
                proof {
                    lemma_sound_expr_refine(self.subst.binds@, env_entry, s_a, bindings(l_entry), *a, operand);
                }
                Ok(Typed { ty: result, variant: None })
            },
        }
    }

    /// Infers `Constructor(..base, label: value, ...)`.
    #[verifier::rlimit(80)]
    fn infer_update(&mut self, ctor: &Expr, base: &Expr, args: &Vec<Arg>, fuel: usize) -> (r:
        Result<Typed, TypeError>)
        requires
            old(self).wf(),
        ensures
            final(self).wf(),
            crate::types::absorbs(final(self).subst.binds@, old(self).subst.binds@),
            final(self).scope_values@ == old(self).scope_values@,
            final(self).scope_types@ == old(self).scope_types@,
            final(self).modules@ == old(self).modules@,
            final(self).types@ == old(self).types@,
            final(self).aliases@ == old(self).aliases@,
            final(self).type_names@ == old(self).type_names@,
            r is Ok ==> final(self).locals@ == old(self).locals@,
            r matches Ok(t) ==> sound_expr(
                final(self).subst.binds@,
                old(self).env(),
                bindings(old(self).locals@),
                Expr::Update(Box::new(*ctor), Box::new(*base), *args),
                t.ty,
            ),
        decreases fuel, 1nat,
    {
        let ghost s_entry = self.subst.binds@;
        let ghost sv_entry = self.scope_values@;
        let ghost env_entry = self.env();
        let ghost tn_entry = self.type_names@;
        let ghost st_entry = self.scope_types@;
        let ghost md_entry = self.modules@;
        let ghost l_entry = self.locals@;
        let ghost ctx = bindings(l_entry);
        let ghost e = Expr::Update(Box::new(*ctor), Box::new(*base), *args);
        if fuel == 0 {
            return Err(TypeError::TooDeep);
        }
        let v = match ctor {
            Expr::Var(name) => self.lookup_value(&None, name)?,
            Expr::Access(m, name) => match &**m {
                Expr::Var(mn) => self.lookup_value(&Some(copy_name(mn)), name)?,
                _ => {
                    return Err(TypeError::NotAConstructor(copy_name(name)));
                },
            },
            _ => {
                return Err(TypeError::NotAConstructor(chars_of("?")));
            },
        };
        let ghost vn: ValueInfo;
        proof {
            match ctor {
                Expr::Var(name) => {
                    let j = choose|j: int|
                        crate::typing::last_value(sv_entry, name@, j) && v.scheme == sv_entry[j].scheme
                            && v.generalized == sv_entry[j].generalized && crate::env::labels_alike(
                            v.labels@,
                            sv_entry[j].labels@,
                        );
                    let jc = choose|j: int| crate::typing::last_value(env_entry.vals, name@, j);
                    if jc < j {
                        assert(sv_entry[j].name@ == name@);
                    } else if j < jc {
                        assert(sv_entry[jc].name@ == name@);
                    }
                    vn = sv_entry[j];
                },
                Expr::Access(m, name) => {
                    let mn = m->Var_0;
                    let (a, j) = choose|a: int, j: int|
                        #[trigger] crate::typing::last_alias(env_entry.aliases, mn@, a)
                            && env_entry.aliases[a].1 < env_entry.modules.len()
                            && #[trigger] crate::typing::last_value(
                            env_entry.modules[env_entry.aliases[a].1 as int].values@,
                            name@,
                            j,
                        ) && v.scheme == env_entry.modules[env_entry.aliases[a].1 as int].values@[j].scheme
                            && v.generalized
                            == env_entry.modules[env_entry.aliases[a].1 as int].values@[j].generalized
                            && crate::env::labels_alike(
                            v.labels@,
                            env_entry.modules[env_entry.aliases[a].1 as int].values@[j].labels@,
                        );
                    assert(crate::typing::names_module(env_entry, ctx, **m));
                    let ac = choose|a: int|
                        crate::typing::last_alias(env_entry.aliases, mn@, a) && env_entry.aliases[a].1
                            < env_entry.modules.len();
                    if ac < a {
                        assert(env_entry.aliases[a].0@ == mn@);
                    } else if a < ac {
                        assert(env_entry.aliases[ac].0@ == mn@);
                    }
                    let vs = env_entry.modules[env_entry.aliases[a].1 as int].values@;
                    let jc = choose|j: int| crate::typing::last_value(vs, name@, j);
                    if jc < j {
                        assert(vs[j].name@ == name@);
                    } else if j < jc {
                        assert(vs[jc].name@ == name@);
                    }
                    vn = vs[j];
                },
                _ => {
                    vn = v;
                },
            }
            assert(crate::typing::named_value(env_entry, ctx, *ctor) == Some(vn));
            assert(vn.scheme == v.scheme);
            assert(crate::env::labels_alike(v.labels@, vn.labels@));
            assert forall|l: Seq<char>, q: int|
                #[trigger] crate::env::first_label(vn.labels@, l, q) == crate::env::first_label(
                    v.labels@,
                    l,
                    q,
                ) by {
                crate::env::lemma_first_label_alike(v.labels@, vn.labels@, l, q);
            }
        }
        let (type_id, vidx) = match v.ctor {
            Some(c) => c,
            None => {
                return Err(TypeError::NotAConstructor(copy_name(&v.name)));
            },
        };
        let inst1 = self.instantiate(&v.scheme);
        let inst2 = self.instantiate(&v.scheme);
        let (fields, ret) = match fn_parts(&inst1) {
            Some(p) => p,
            None => {
                return Err(TypeError::NotAConstructor(copy_name(&v.name)));
            },
        };
        let (old_fields, old_ret) = match fn_parts(&inst2) {
            Some(p) => p,
            None => {
                return Err(TypeError::NotAConstructor(copy_name(&v.name)));
            },
        };
        proof {
            let f1 = choose|f: spec_fn(usize) -> Ty| inst1 == #[trigger] crate::env::gens_by(v.scheme, f);
            let f2 = choose|f: spec_fn(usize) -> Ty| inst2 == #[trigger] crate::env::gens_by(v.scheme, f);
            assert forall|s0: Seq<Option<Ty>>| crate::typing::instance_of(s0, vn.scheme, crate::env::fn_type(fields@, ret))
                && #[trigger] crate::typing::instance_of(s0, vn.scheme, crate::env::fn_type(old_fields@, old_ret)) by {
                assert(crate::types::apply(s0, crate::env::fn_type(fields@, ret)) == crate::types::apply(
                    s0,
                    crate::env::gens_by(vn.scheme, f1),
                ));
                assert(crate::types::apply(s0, crate::env::fn_type(old_fields@, old_ret)) == crate::types::apply(
                    s0,
                    crate::env::gens_by(vn.scheme, f2),
                ));
            }
        }
        let base_typed = self.infer_expr(base, fuel - 1)?;
        let ghost s_b = self.subst.binds@;
        self.unify_types(&old_ret, &base_typed.ty)?;
        proof {
            lemma_sound_expr_refine(self.subst.binds@, env_entry, s_b, ctx, *base, base_typed.ty);
            lemma_sound_expr_respects(self.subst.binds@, env_entry, ctx, *base, base_typed.ty, old_ret);
        }
        let several = type_id < self.types.len() && self.types[type_id].variants.len() > 1;
        if several {
            match base_typed.variant {
                Some(k) => {
                    if k != vidx {
                        return Err(TypeError::UnsafeRecordUpdate);
                    }
                },
                None => {
                    return Err(TypeError::UnsafeRecordUpdate);
                },
            }
        }
        let mut updated: Vec<bool> = Vec::new();
        let mut k: usize = 0;
        while k < fields.len()
            invariant
                k <= fields@.len(),
                updated@.len() == k,
                forall|q: int| 0 <= q < k ==> !(#[trigger] updated@[q]),
            decreases fields@.len() - k,
        {
            updated.push(false);
            k = k + 1;
        }
        let mut i: usize = 0;
        while i < args.len()
            invariant
                self.wf(),
                crate::types::absorbs(self.subst.binds@, s_entry),
                self.scope_values@ == sv_entry,
                self.scope_types@ == st_entry,
                self.modules@ == md_entry,
                self.types@ == env_entry.types,
                self.aliases@ == env_entry.aliases,
                self.type_names@ == tn_entry,
                self.locals@ == l_entry,
                i <= args@.len(),
                updated@.len() == fields@.len(),
                sound_expr(self.subst.binds@, env_entry, ctx, *base, old_ret),
                forall|i2: int|
                    0 <= i2 < i ==> (#[trigger] args@[i2]).label is Some && (exists|q: int|
                        crate::env::first_label(vn.labels@, args@[i2].label->0@, q)) && forall|q: int|
                        crate::env::first_label(vn.labels@, args@[i2].label->0@, q) ==> q < fields@.len()
                            && sound_expr(self.subst.binds@, env_entry, ctx, args@[i2].value, fields@[q]),
                forall|i2: int, q: int|
                    0 <= i2 < i && (#[trigger] args@[i2]).label is Some && #[trigger] crate::env::first_label(
                        vn.labels@,
                        args@[i2].label->0@,
                        q,
                    ) ==> q < updated@.len() && updated@[q],
                forall|q: int|
                    0 <= q < updated@.len() && #[trigger] updated@[q] ==> crate::typing::updated_at(
                        vn.labels@,
                        args@,
                        q,
                    ),
            decreases args@.len() - i,
        {
            let ghost s_before = self.subst.binds@;
            let label = match &args[i].label {
                Some(l) => l,
                None => {
                    return Err(TypeError::UnknownLabel(chars_of("_")));
                },
            };
            let idx = match find_label(&v.labels, label) {
                Some(x) => x,
                None => {
                    return Err(TypeError::UnknownLabel(copy_name(label)));
                },
            };
            if idx >= fields.len() {
                return Err(TypeError::UnknownLabel(copy_name(label)));
            }
            proof {
                assert(crate::env::first_label(v.labels@, label@, idx as int));
                assert(crate::env::first_label(vn.labels@, label@, idx as int));
                assert forall|q: int| #[trigger] crate::env::first_label(vn.labels@, label@, q) implies q
                    == idx by {
                    if q < idx {
                        assert(crate::env::has_label(vn.labels@, q, label@));
                    } else if idx < q {
                        assert(crate::env::has_label(vn.labels@, idx as int, label@));
                    }
                }
            }
            self.infer_expected(&args[i].value, &fields[idx], fuel - 1)?;
            let ghost upd_before = updated@;
            updated.set(idx, true);
            proof {
                assert forall|q: int|
                    0 <= q < updated@.len() && #[trigger] updated@[q] implies crate::typing::updated_at(
                    vn.labels@,
                    args@,
                    q,
                ) by {
                    if q == idx {
                        assert(args@[i as int].label is Some);
                        assert(crate::env::first_label(vn.labels@, args@[i as int].label->0@, q));
                    } else {
                        assert(upd_before[q]);
                    }
                }
                lemma_sound_expr_refine(self.subst.binds@, env_entry, s_before, ctx, *base, old_ret);
                assert forall|i2: int|
                    0 <= i2 < i + 1 implies (#[trigger] args@[i2]).label is Some && (exists|q: int|
                    crate::env::first_label(vn.labels@, args@[i2].label->0@, q)) && forall|q: int|
                    crate::env::first_label(vn.labels@, args@[i2].label->0@, q) ==> q < fields@.len()
                        && sound_expr(self.subst.binds@, env_entry, ctx, args@[i2].value, fields@[q]) by {
                    if i2 < i {
                        assert forall|q: int|
                            crate::env::first_label(vn.labels@, args@[i2].label->0@, q) implies q
                            < fields@.len() && sound_expr(
                            self.subst.binds@,
                            env_entry,
                            ctx,
                            args@[i2].value,
                            fields@[q],
                        ) by {
                            lemma_sound_expr_refine(
                                self.subst.binds@,
                                env_entry,
                                s_before,
                                ctx,
                                args@[i2].value,
                                fields@[q],
                            );
                        }
                    } else {
                        assert(crate::env::first_label(vn.labels@, args@[i2].label->0@, idx as int));
                    }
                }
            }
            i = i + 1;
        }
        let mut j: usize = 0;
        while j < fields.len()
            invariant
                self.wf(),
                crate::types::absorbs(self.subst.binds@, s_entry),
                self.scope_values@ == sv_entry,
                self.scope_types@ == st_entry,
                self.modules@ == md_entry,
                self.types@ == env_entry.types,
                self.aliases@ == env_entry.aliases,
                self.type_names@ == tn_entry,
                self.locals@ == l_entry,
                j <= fields@.len(),
                updated@.len() == fields@.len(),
                sound_expr(self.subst.binds@, env_entry, ctx, *base, old_ret),
                forall|i2: int|
                    0 <= i2 < args@.len() ==> (#[trigger] args@[i2]).label is Some && (exists|q: int|
                        crate::env::first_label(vn.labels@, args@[i2].label->0@, q)) && forall|q: int|
                        crate::env::first_label(vn.labels@, args@[i2].label->0@, q) ==> q < fields@.len()
                            && sound_expr(self.subst.binds@, env_entry, ctx, args@[i2].value, fields@[q]),
                forall|q: int|
                    0 <= q < j && q < old_fields@.len() && !updated@[q] ==> crate::types::apply(
                        self.subst.binds@,
                        #[trigger] fields@[q],
                    ) == crate::types::apply(self.subst.binds@, old_fields@[q]),
            decreases fields@.len() - j,
        {
            let ghost s_before = self.subst.binds@;
            if !updated[j] && j < old_fields.len() {
                self.unify_types(&fields[j], &old_fields[j])?;
            }
            proof {
                lemma_sound_expr_refine(self.subst.binds@, env_entry, s_before, ctx, *base, old_ret);
                assert forall|i2: int|
                    0 <= i2 < args@.len() implies (#[trigger] args@[i2]).label is Some && (exists|q: int|
                    crate::env::first_label(vn.labels@, args@[i2].label->0@, q)) && forall|q: int|
                    crate::env::first_label(vn.labels@, args@[i2].label->0@, q) ==> q < fields@.len()
                        && sound_expr(self.subst.binds@, env_entry, ctx, args@[i2].value, fields@[q]) by {
                    assert forall|q: int|
                        crate::env::first_label(vn.labels@, args@[i2].label->0@, q) implies q < fields@.len()
                        && sound_expr(self.subst.binds@, env_entry, ctx, args@[i2].value, fields@[q]) by {
                        lemma_sound_expr_refine(
                            self.subst.binds@,
                            env_entry,
                            s_before,
                            ctx,
                            args@[i2].value,
                            fields@[q],
                        );
                    }
                }
                assert forall|q: int|
                    0 <= q < j + 1 && q < old_fields@.len() && !updated@[q] implies crate::types::apply(
                    self.subst.binds@,
                    #[trigger] fields@[q],
                ) == crate::types::apply(self.subst.binds@, old_fields@[q]) by {
                    if q < j {
                        crate::types::lemma_absorbs_keeps_equal(
                            self.subst.binds@,
                            s_before,
                            fields@[q],
                            old_fields@[q],
                        );
                    }
                }
            }
            j = j + 1;
        }
        proof {
            assert forall|q: int|
                0 <= q < fields@.len() && q < old_fields@.len() && !crate::typing::updated_at(
                    vn.labels@,
                    args@,
                    q,
                ) implies crate::types::apply(self.subst.binds@, #[trigger] fields@[q])
                == crate::types::apply(self.subst.binds@, old_fields@[q]) by {
                if updated@[q] {
                    assert(crate::typing::updated_at(vn.labels@, args@, q));
                }
            }
            crate::typing::lemma_sound_update(
                self.subst.binds@,
                env_entry,
                ctx,
                e,
                vn,
                fields@,
                ret,
                old_fields@,
                old_ret,
            );
        }
        Ok(Typed { ty: ret, variant: Some(vidx) })
    }

    /// Infers a sequence of statements; its type is that of the last one.
    pub fn infer_stmts(&mut self, stmts: &Vec<Stmt>, fuel: usize) -> (r: Result<Typed, TypeError>)
        requires
            old(self).wf(),
        ensures
            r matches Ok(t) ==> crate::typing::sound_stmts(
                final(self).subst.binds@,
                old(self).env(),
                bindings(old(self).locals@),
                stmts@,
                t.ty,
            ),
            final(self).wf(),
            crate::types::absorbs(final(self).subst.binds@, old(self).subst.binds@),
            final(self).scope_values@ == old(self).scope_values@,
            final(self).scope_types@ == old(self).scope_types@,
            final(self).modules@ == old(self).modules@,
            final(self).types@ == old(self).types@,
            final(self).aliases@ == old(self).aliases@,
            final(self).type_names@ == old(self).type_names@,
            r is Ok ==> final(self).locals@ == old(self).locals@,
        decreases fuel, 1nat,
    {
        let ghost s_entry = self.subst.binds@;
        let ghost sv_entry = self.scope_values@;
        let ghost env_entry = self.env();
        let ghost tn_entry = self.type_names@;
        let ghost st_entry = self.scope_types@;
        let ghost md_entry = self.modules@;
        let ghost l_entry = self.locals@;
        if fuel == 0 {
            return Err(TypeError::TooDeep);
        }
        let mark = self.locals.len();
        let mut last: Option<Typed> = None;
        let ghost mut ctxs: Seq<Seq<(Seq<char>, Ty)>> = seq![bindings(l_entry)];
        let ghost mut xs: Seq<Ty> = Seq::empty();
        let mut i: usize = 0;
        while i < stmts.len()
            invariant
                self.wf(),
                crate::types::absorbs(self.subst.binds@, s_entry),
                self.scope_values@ == sv_entry,
                self.scope_types@ == st_entry,
                self.modules@ == md_entry,
                self.types@ == env_entry.types,
                self.aliases@ == env_entry.aliases,
                self.type_names@ == tn_entry,
                extends_locals(l_entry, self.locals@),
                i <= stmts@.len(),
                ctxs.len() == i + 1,
                xs.len() == i,
                ctxs[i as int] == bindings(self.locals@),
                ctxs[0] == bindings(l_entry),
                forall|j: int|
                    0 <= j < i ==> sound_expr(
                        self.subst.binds@,
                        env_entry,
                        ctxs[j],
                        stmt_value(stmts@[j]),
                        #[trigger] xs[j],
                    ),
                forall|j: int|
                    0 <= j < i && keeps_track(#[trigger] stmts@[j]) ==> crate::typing::sound_step(
                        self.subst.binds@,
                        env_entry,
                        ctxs[j],
                        stmts@[j],
                        xs[j],
                        ctxs[j + 1],
                    ),
                i == 0 <==> last is None,
                last matches Some(t) ==> t.ty == xs.last(),
            decreases stmts@.len() - i,
        {
            let ghost s_before = self.subst.binds@;
            let t = self.infer_stmt(&stmts[i], fuel - 1)?;
            proof {
                assert forall|j: int| 0 <= j < i implies sound_expr(
                    self.subst.binds@,
                    env_entry,
                    ctxs[j],
                    stmt_value(stmts@[j]),
                    #[trigger] xs[j],
                ) by {
                    lemma_sound_expr_refine(
                        self.subst.binds@,
                        env_entry,
                        s_before,
                        ctxs[j],
                        stmt_value(stmts@[j]),
                        xs[j],
                    );
                }
                assert forall|j: int| 0 <= j < i && keeps_track(#[trigger] stmts@[j]) implies crate::typing::sound_step(
                    self.subst.binds@,
                    env_entry,
                    ctxs[j],
                    stmts@[j],
                    xs[j],
                    ctxs[j + 1],
                ) by {
                    crate::typing::lemma_sound_step_refine(
                        self.subst.binds@,
                        env_entry,
                        s_before,
                        ctxs[j],
                        stmts@[j],
                        xs[j],
                        ctxs[j + 1],
                    );
                }
                xs = xs.push(t.ty);
                ctxs = ctxs.push(bindings(self.locals@));
            }
            last = Some(t);
            i = i + 1;
        }
        self.truncate_locals(mark);
        match last {
            Some(t) => {
                proof {
                    crate::typing::lemma_sound_stmts_chain(self.subst.binds@, env_entry, ctxs, stmts@, xs, t.ty);
                }
                Ok(t)
            },
            None => {
                let t = self.fresh_var();
                proof {
                    crate::typing::lemma_sound_stmts_chain(self.subst.binds@, env_entry, ctxs, stmts@, xs, t);
                }
                Ok(Typed { ty: t, variant: None })
            },
        }
    }

    fn infer_stmt(&mut self, stmt: &Stmt, fuel: usize) -> (r: Result<Typed, TypeError>)
        requires
            old(self).wf(),
        ensures
            r matches Ok(t) ==> (*stmt matches Stmt::Let {
                assert: false,
                pattern: Pattern::Var(x),
                ..
            } ==> crate::env::innermost_local(final(self).locals@, x@, final(self).locals@.len() - 1)
                && final(self).locals@.last().ty == t.ty),
            final(self).wf(),
            crate::types::absorbs(final(self).subst.binds@, old(self).subst.binds@),
            final(self).scope_values@ == old(self).scope_values@,
            final(self).scope_types@ == old(self).scope_types@,
            final(self).modules@ == old(self).modules@,
            final(self).types@ == old(self).types@,
            final(self).aliases@ == old(self).aliases@,
            final(self).type_names@ == old(self).type_names@,
            r is Ok ==> extends_locals(old(self).locals@, final(self).locals@),
            r matches Ok(t) ==> sound_expr(
                final(self).subst.binds@,
                old(self).env(),
                bindings(old(self).locals@),
                stmt_value(*stmt),
                t.ty,
            ),
            r matches Ok(t) ==> (keeps_track(*stmt) ==> crate::typing::sound_step(
                final(self).subst.binds@,
                old(self).env(),
                bindings(old(self).locals@),
                *stmt,
                t.ty,
                bindings(final(self).locals@),
            )),
        decreases fuel, 1nat,
    {
        let ghost s_entry = self.subst.binds@;
        let ghost sv_entry = self.scope_values@;
        let ghost env_entry = self.env();
        let ghost tn_entry = self.type_names@;
        let ghost st_entry = self.scope_types@;
        let ghost md_entry = self.modules@;
        let ghost l_entry = self.locals@;
        if fuel == 0 {
            return Err(TypeError::TooDeep);
        }
        match stmt {
            Stmt::Expr(e) => self.infer_expr(e, fuel - 1),
            Stmt::Let { assert, pattern, annotation, value } => {
                let typed = match annotation {
                    Some(a) => {
                        let t = self.hydrate(a, true, fuel - 1)?;
                        self.infer_expected(value, &t, fuel - 1)?
                    },
                    None => self.infer_expr(value, fuel - 1)?,
                };
                let ghost s_value = self.subst.binds@;
                let mut nodes: Vec<Node> = Vec::new();
                let pv = self.infer_pattern(pattern, &typed.ty, &mut nodes, fuel - 1)?;
                proof {
                    lemma_sound_expr_refine(self.subst.binds@, env_entry, s_value, bindings(l_entry), *value, typed.ty);
                }
                if !*assert {
                    let mut rows: Vec<Vec<Node>> = Vec::new();
                    rows.push(nodes);
                    match is_useful(&rows, 1, exhaustiveness_fuel()) {
                        Some(false) => {},
                        Some(true) => {
                            return Err(TypeError::InexhaustiveLet);
                        },
                        None => {
                            return Err(TypeError::TooDeep);
                        },
                    }
                }
                match pattern {
                    Pattern::Var(_) => {
                        let n = self.locals.len();
                        if n > 0 {
                            let ghost prev = self.locals@;
                            let last = self.locals.pop().unwrap();
                            let ghost lg = last;
                            let l2 = Local { name: last.name, ty: last.ty, variant: typed.variant };
                            proof {
                                crate::typing::lemma_bindings_push(self.locals@, l2);
                                crate::typing::lemma_bindings_push(self.locals@, lg);
                                assert(prev =~= self.locals@.push(lg));
                            }
                            self.locals.push(l2);
                        }
                    },
                    _ => {},
                }
                if *assert && pv.is_some() {
                    match value {
                        Expr::Var(x) => {
                            if find_local(&self.locals, x).is_some() {
                                self.push_local(x, &typed.ty, pv);
                            }
                        },
                        _ => {},
                    }
                }
                Ok(typed)
            },
        }
    }

    /// Checks a pattern against the type it matches, binding its variables
    /// and appending its nodes, in preorder, to `nodes`; the result is the
    /// constructor variant the pattern requires, if any.
    pub fn infer_pattern(
        &mut self,
        p: &Pattern,
        expected: &Ty,
        nodes: &mut Vec<Node>,
        fuel: usize,
    ) -> (r: Result<
        Option<usize>,
        TypeError,
    >)
        requires
            old(self).wf(),
        ensures
            final(self).wf(),
            crate::types::absorbs(final(self).subst.binds@, old(self).subst.binds@),
            final(self).scope_values@ == old(self).scope_values@,
            final(self).scope_types@ == old(self).scope_types@,
            final(self).modules@ == old(self).modules@,
            final(self).types@ == old(self).types@,
            final(self).aliases@ == old(self).aliases@,
            final(self).type_names@ == old(self).type_names@,
            r is Ok ==> extends_locals(old(self).locals@, final(self).locals@),
            r is Ok ==> extends_by_pattern(old(nodes)@, final(nodes)@),
            r is Ok && *p is Var ==> final(self).locals@.len() == old(self).locals@.len() + 1
                && final(self).locals@.last().name@ == p->Var_0@ && final(self).locals@.last().ty
                == *expected,
            r is Ok && *p is Var ==> bindings(final(self).locals@) == bindings(old(self).locals@).push(
                (p->Var_0@, *expected),
            ),
            r is Ok && *p is Discard ==> final(self).locals@ == old(self).locals@,
            r is Ok && (*p is Var || *p is Discard) ==> r == Ok::<Option<usize>, TypeError>(None),
            r is Ok ==> crate::typing::sound_pattern(
                final(self).subst.binds@,
                old(self).env(),
                bindings(old(self).locals@),
                *p,
                *expected,
                bindings(final(self).locals@),
            ),
        decreases fuel,
    {
        let ghost s_entry = self.subst.binds@;
        let ghost sv_entry = self.scope_values@;
        let ghost env_entry = self.env();
        let ghost tn_entry = self.type_names@;
        let ghost st_entry = self.scope_types@;
        let ghost md_entry = self.modules@;
        let ghost l_entry = self.locals@;
        let ghost n0 = nodes@;
        proof {
            lemma_grow_start(n0);
        }
        if fuel == 0 {
            return Err(TypeError::TooDeep);
        }
        match p {
            Pattern::Discard => {
                nodes.push(Node::Any);
                proof {
                    lemma_grow_node(n0, n0, Node::Any, 1);
                    lemma_grow_done(n0, nodes@);
                    crate::typing::lemma_sound_pattern_leaf(
                        self.subst.binds@,
                        env_entry,
                        bindings(l_entry),
                        *p,
                        *expected,
                        bindings(self.locals@),
                    );
                }
                Ok(None)
            },
            Pattern::Var(n) => {
                self.push_local(n, expected, None);
                nodes.push(Node::Any);
                proof {
                    lemma_grow_node(n0, n0, Node::Any, 1);
                    lemma_grow_done(n0, nodes@);
                    crate::typing::lemma_sound_pattern_leaf(
                        self.subst.binds@,
                        env_entry,
                        bindings(l_entry),
                        *p,
                        *expected,
                        bindings(self.locals@),
                    );
                }
                Ok(None)
            },
            Pattern::Int => {
                self.unify_types(expected, &int_ty())?;
                nodes.push(Node::Lit);
                proof {
                    lemma_grow_node(n0, n0, Node::Lit, 1);
                    lemma_grow_done(n0, nodes@);
                    crate::typing::lemma_sound_pattern_leaf(
                        self.subst.binds@,
                        env_entry,
                        bindings(l_entry),
                        *p,
                        *expected,
                        bindings(self.locals@),
                    );
                }
                Ok(None)
            },
            Pattern::Float => {
                self.unify_types(expected, &float_ty())?;
                nodes.push(Node::Lit);
                proof {
                    lemma_grow_node(n0, n0, Node::Lit, 1);
                    lemma_grow_done(n0, nodes@);
                    crate::typing::lemma_sound_pattern_leaf(
                        self.subst.binds@,
                        env_entry,
                        bindings(l_entry),
                        *p,
                        *expected,
                        bindings(self.locals@),
                    );
                }
                Ok(None)
            },
            Pattern::Str => {
                self.unify_types(expected, &string_ty())?;
                nodes.push(Node::Lit);
                proof {
                    lemma_grow_node(n0, n0, Node::Lit, 1);
                    lemma_grow_done(n0, nodes@);
                    crate::typing::lemma_sound_pattern_leaf(
                        self.subst.binds@,
                        env_entry,
                        bindings(l_entry),
                        *p,
                        *expected,
                        bindings(self.locals@),
                    );
                }
                Ok(None)
            },
            Pattern::List(elems, tail) => {
                let e = self.fresh_var();
                let lt = list_ty(copy_ty(&e));
                self.unify_types(expected, &lt)?;
                let ghost s_unified = self.subst.binds@;
                let ghost mut cs: Seq<Seq<(Seq<char>, Ty)>> = seq![bindings(l_entry)];
                let mut i: usize = 0;
                while i < elems.len()
                    invariant
                        self.wf(),
                        crate::types::absorbs(self.subst.binds@, s_entry),
                        self.scope_values@ == sv_entry,
                        self.scope_types@ == st_entry,
                        self.modules@ == md_entry,
                        self.types@ == env_entry.types,
                        self.aliases@ == env_entry.aliases,
                        self.type_names@ == tn_entry,
                        extends_locals(l_entry, self.locals@),
                        i <= elems@.len(),
                        n0.is_prefix_of(nodes@),
                        pending(nodes@.skip(n0.len() as int), 1) == Some(1nat),
                        crate::types::absorbs(self.subst.binds@, s_unified),
                        cs.len() == i + 1,
                        cs[0] == bindings(l_entry),
                        cs.last() == bindings(self.locals@),
                        forall|k: int|
                            0 <= k < i ==> crate::typing::sound_pattern(
                                self.subst.binds@,
                                env_entry,
                                cs[k],
                                #[trigger] elems@[k],
                                e,
                                cs[k + 1],
                            ),
                    decreases elems@.len() - i,
                {
                    let cons = Node::Con { idx: 1, count: 2, arity: 2 };
                    proof {
                        lemma_grow_node(n0, nodes@, cons, 1);
                    }
                    nodes.push(cons);
                    let ghost mid = nodes@;
                    let ghost s_before = self.subst.binds@;
                    self.infer_pattern(&elems[i], &e, nodes, fuel - 1)?;
                    proof {
                        lemma_grow_pattern(n0, mid, nodes@, 2);
                        assert forall|k: int| 0 <= k < i implies crate::typing::sound_pattern(
                            self.subst.binds@,
                            env_entry,
                            cs[k],
                            #[trigger] elems@[k],
                            e,
                            cs[k + 1],
                        ) by {
                            crate::typing::lemma_sound_pattern_refine(
                                self.subst.binds@,
                                env_entry,
                                s_before,
                                cs[k],
                                elems@[k],
                                e,
                                cs[k + 1],
                            );
                        }
                        cs = cs.push(bindings(self.locals@));
                    }
                    i = i + 1;
                }
                let ghost s_elems = self.subst.binds@;
                match tail {
                    Some(t) => {
                        let ghost mid = nodes@;
                        self.infer_pattern(t, &lt, nodes, fuel - 1)?;
                        proof {
                            lemma_grow_pattern(n0, mid, nodes@, 1);
                        }
                    },
                    None => {
                        let nil = Node::Con { idx: 0, count: 2, arity: 0 };
                        proof {
                            lemma_grow_node(n0, nodes@, nil, 1);
                        }
                        nodes.push(nil);
                    },
                }
                proof {
                    lemma_grow_done(n0, nodes@);
                    assert forall|k: int| 0 <= k < elems@.len() implies crate::typing::sound_pattern(
                        self.subst.binds@,
                        env_entry,
                        cs[k],
                        #[trigger] elems@[k],
                        e,
                        cs[k + 1],
                    ) by {
                        crate::typing::lemma_sound_pattern_refine(
                            self.subst.binds@,
                            env_entry,
                            s_elems,
                            cs[k],
                            elems@[k],
                            e,
                            cs[k + 1],
                        );
                    }
                    crate::types::lemma_absorbs_keeps_equal(self.subst.binds@, s_unified, *expected, lt);
                    crate::typing::lemma_sound_pattern_list(
                        self.subst.binds@,
                        env_entry,
                        bindings(l_entry),
                        *p,
                        *expected,
                        e,
                        cs,
                        bindings(self.locals@),
                    );
                }
                Ok(None)
            },
            Pattern::Tuple(elems) => {
                let mut tys: Vec<Ty> = Vec::new();
                let mut i: usize = 0;
                while i < elems.len()
                    invariant
                        self.wf(),
                        crate::types::absorbs(self.subst.binds@, s_entry),
                        self.scope_values@ == sv_entry,
                        self.scope_types@ == st_entry,
                        self.modules@ == md_entry,
                        self.types@ == env_entry.types,
                        self.aliases@ == env_entry.aliases,
                        self.type_names@ == tn_entry,
                        extends_locals(l_entry, self.locals@),
                        self.locals@ == l_entry,
                        i <= elems@.len(),
                        tys@.len() == i,
                    decreases elems@.len() - i,
                {
                    tys.push(self.fresh_var());
                    i = i + 1;
                }
                self.unify_types(expected, &tuple_ty(&tys))?;
                let ghost s_unified = self.subst.binds@;
                let ghost mut cs: Seq<Seq<(Seq<char>, Ty)>> = seq![bindings(l_entry)];
                let tuple = Node::Con { idx: 0, count: 1, arity: elems.len() };
                proof {
                    lemma_grow_node(n0, nodes@, tuple, 1);
                }
                nodes.push(tuple);
                let mut j: usize = 0;
                while j < elems.len()
                    invariant
                        self.wf(),
                        crate::types::absorbs(self.subst.binds@, s_entry),
                        self.scope_values@ == sv_entry,
                        self.scope_types@ == st_entry,
                        self.modules@ == md_entry,
                        self.types@ == env_entry.types,
                        self.aliases@ == env_entry.aliases,
                        self.type_names@ == tn_entry,
                        extends_locals(l_entry, self.locals@),
                        j <= elems@.len(),
                        tys@.len() == elems@.len(),
                        n0.is_prefix_of(nodes@),
                        pending(nodes@.skip(n0.len() as int), 1) == Some((elems@.len() - j) as nat),
                        crate::types::absorbs(self.subst.binds@, s_unified),
                        cs.len() == j + 1,
                        cs[0] == bindings(l_entry),
                        cs.last() == bindings(self.locals@),
                        forall|k: int|
                            0 <= k < j ==> crate::typing::sound_pattern(
                                self.subst.binds@,
                                env_entry,
                                cs[k],
                                #[trigger] elems@[k],
                                tys@[k],
                                cs[k + 1],
                            ),
                    decreases elems@.len() - j,
                {
                    let ghost mid = nodes@;
                    let ghost s_before = self.subst.binds@;
                    self.infer_pattern(&elems[j], &tys[j], nodes, fuel - 1)?;
                    proof {
                        lemma_grow_pattern(n0, mid, nodes@, (elems@.len() - j) as nat);
                        assert forall|k: int| 0 <= k < j implies crate::typing::sound_pattern(
                            self.subst.binds@,
                            env_entry,
                            cs[k],
                            #[trigger] elems@[k],
                            tys@[k],
                            cs[k + 1],
                        ) by {
                            crate::typing::lemma_sound_pattern_refine(
                                self.subst.binds@,
                                env_entry,
                                s_before,
                                cs[k],
                                elems@[k],
                                tys@[k],
                                cs[k + 1],
                            );
                        }
                        cs = cs.push(bindings(self.locals@));
                    }
                    j = j + 1;
                }
                proof {
                    lemma_grow_done(n0, nodes@);
                    crate::types::lemma_absorbs_keeps_equal(
                        self.subst.binds@,
                        s_unified,
                        *expected,
                        crate::env::tuple_type(tys@),
                    );
                    crate::typing::lemma_sound_pattern_tuple(self.subst.binds@, env_entry, *p, *expected, tys@, cs);
                }
                Ok(None)
            },
            Pattern::Ctor { module, name, args, spread } => {
                let v = self.lookup_value(module, name)?;
                let ghost vn = crate::typing::named_value(
                    env_entry,
                    bindings(l_entry),
                    crate::typing::ctor_name(*module, *name),
                )->0;
                let (tid, vidx) = match v.ctor {
                    Some((t, k)) => (t, k),
                    None => {
                        return Err(TypeError::NotAConstructor(copy_name(name)));
                    },
                };
                let count = if tid < self.types.len() {
                    self.types[tid].variants.len()
                } else {
                    1
                };
                let t = self.instantiate(&v.scheme);
                let ghost in_order = !*spread && forall|q: int|
                    0 <= q < args@.len() ==> (#[trigger] args@[q]).label is None;
                let ghost cb = bindings(l_entry);
                let ghost mut cs: Seq<Seq<(Seq<char>, Ty)>> = seq![cb];
                match fn_parts(&t) {
                    Some((fields, ret)) => {
                        self.unify_types(expected, &ret)?;
                        let ghost s_unified = self.subst.binds@;
                        let mut arg_labels: Vec<Option<Vec<char>>> = Vec::new();
                        let mut i: usize = 0;
                        while i < args.len()
                            invariant
                                i <= args@.len(),
                                arg_labels@.len() == i,
                                forall|q: int|
                                    0 <= q < i ==> (#[trigger] arg_labels@[q] is None <==> args@[q].label
                                        is None),
                            decreases args@.len() - i,
                        {
                            arg_labels.push(copy_opt_name(&args[i].label));
                            i = i + 1;
                        }
                        let labels = if v.labels.len() == fields.len() {
                            copy_labels(&v.labels)
                        } else {
                            Vec::new()
                        };
                        let slots = place_args(&labels, fields.len(), &arg_labels, *spread)?;
                        proof {
                            if in_order {
                                assert forall|q: int| 0 <= q < arg_labels@.len() implies #[trigger] arg_labels@[q]
                                    is None by {
                                    assert(args@[q].label is None);
                                }
                                crate::args::lemma_unlabelled_in_order(labels@, arg_labels@, slots@);
                            }
                        }
                        let con = Node::Con { idx: vidx, count, arity: fields.len() };
                        proof {
                            lemma_grow_node(n0, nodes@, con, 1);
                        }
                        nodes.push(con);
                        let mut k: usize = 0;
                        while k < fields.len()
                            invariant
                                self.wf(),
                                crate::types::absorbs(self.subst.binds@, s_entry),
                                self.scope_values@ == sv_entry,
                                self.scope_types@ == st_entry,
                                self.modules@ == md_entry,
                                self.types@ == env_entry.types,
                                self.aliases@ == env_entry.aliases,
                                self.type_names@ == tn_entry,
                                extends_locals(l_entry, self.locals@),
                                k <= fields@.len(),
                                slots@.len() == fields@.len(),
                                arg_labels@.len() == args@.len(),
                                forall|x: int|
                                    0 <= x < fields@.len() ==> (#[trigger] slots@[x] matches Some(
                                        j,
                                    ) ==> j < arg_labels@.len()),
                                n0.is_prefix_of(nodes@),
                                pending(nodes@.skip(n0.len() as int), 1) == Some(
                                    (fields@.len() - k) as nat,
                                ),
                                crate::types::absorbs(self.subst.binds@, s_unified),
                                cs.len() == k + 1,
                                cs[0] == cb,
                                cs.last() == bindings(self.locals@),
                                forall|q: int|
                                    #![trigger slots@[q]]
                                    0 <= q < k ==> match slots@[q] {
                                        Some(j) => j < args@.len() && crate::typing::sound_pattern(
                                            self.subst.binds@,
                                            env_entry,
                                            cs[q],
                                            args@[j as int].value,
                                            fields@[q],
                                            cs[q + 1],
                                        ),
                                        None => cs[q + 1] == cs[q],
                                    },
                            decreases fields@.len() - k,
                        {
                            let ghost mid = nodes@;
                            let ghost s_before = self.subst.binds@;
                            let ghost l_before = self.locals@;
                            match slots[k] {
                                Some(j) => {
                                    self.infer_pattern(&args[j].value, &fields[k], nodes, fuel - 1)?;
                                    proof {
                                        lemma_grow_pattern(n0, mid, nodes@, (fields@.len() - k) as nat);
                                    }
                                },
                                None => {
                                    proof {
                                        lemma_grow_node(n0, nodes@, Node::Any, (fields@.len() - k) as nat);
                                    }
                                    nodes.push(Node::Any);
                                },
                            }
                            proof {
                                assert forall|q: int|
                                    #![trigger slots@[q]]
                                    0 <= q < k implies match slots@[q] {
                                    Some(j) => j < args@.len() && crate::typing::sound_pattern(
                                        self.subst.binds@,
                                        env_entry,
                                        cs[q],
                                        args@[j as int].value,
                                        fields@[q],
                                        cs[q + 1],
                                    ),
                                    None => cs[q + 1] == cs[q],
                                } by {
                                    if slots@[q] is Some {
                                        let j = slots@[q]->0;
                                        crate::typing::lemma_sound_pattern_refine(
                                            self.subst.binds@,
                                            env_entry,
                                            s_before,
                                            cs[q],
                                            args@[j as int].value,
                                            fields@[q],
                                            cs[q + 1],
                                        );
                                    }
                                }
                                cs = cs.push(bindings(self.locals@));
                            }
                            k = k + 1;
                        }
                        proof {
                            let f = choose|f: spec_fn(usize) -> Ty|
                                t == #[trigger] crate::env::gens_by(v.scheme, f);
                            crate::types::lemma_absorbs_keeps_equal(
                                self.subst.binds@,
                                s_unified,
                                *expected,
                                ret,
                            );
                            assert forall|a: int| 0 <= a < args@.len() implies #[trigger] crate::args::placed(
                                slots@,
                                a,
                            ) by {
                                assert(crate::args::placed(slots@, a));
                            }
                            crate::typing::lemma_sound_pattern_ctor(
                                self.subst.binds@,
                                env_entry,
                                *p,
                                *expected,
                                vn,
                                f,
                                fields@,
                                ret,
                                cs,
                                slots@,
                            );
                        }
                    },
                    None => {
                        if args.len() > 0 {
                            return Err(TypeError::IncorrectArity { expected: 0, given: args.len() });
                        }
                        self.unify_types(expected, &t)?;
                        let con = Node::Con { idx: vidx, count, arity: 0 };
                        proof {
                            lemma_grow_node(n0, nodes@, con, 1);
                        }
                        nodes.push(con);
                        proof {
                            let f = choose|f: spec_fn(usize) -> Ty|
                                t == #[trigger] crate::env::gens_by(v.scheme, f);
                            crate::typing::lemma_sound_pattern_ctor(
                                self.subst.binds@,
                                env_entry,
                                *p,
                                *expected,
                                vn,
                                f,
                                Seq::empty(),
                                t,
                                cs,
                                Seq::empty(),
                            );
                        }
                    },
                }
                proof {
                    lemma_grow_done(n0, nodes@);
                }
                Ok(Some(vidx))
            },
            Pattern::As(inner, name) => {
                let v = self.infer_pattern(inner, expected, nodes, fuel - 1)?;
                let ghost mid = bindings(self.locals@);
                self.push_local(name, expected, v);
                proof {
                    crate::typing::lemma_sound_pattern_as(
                        self.subst.binds@,
                        env_entry,
                        bindings(l_entry),
                        *p,
                        *expected,
                        mid,
                    );
                }
                Ok(v)
            },
            Pattern::BitArray(segs) => {
                self.unify_types(expected, &bit_array_ty())?;
                nodes.push(Node::Lit);
                proof {
                    lemma_grow_node(n0, n0, Node::Lit, 1);
                    lemma_grow_done(n0, nodes@);
                }
                let ghost done = nodes@;
                let ghost s_unified = self.subst.binds@;
                let ghost mut cs: Seq<Seq<(Seq<char>, Ty)>> = seq![bindings(l_entry)];
                let mut inner: Vec<Node> = Vec::new();
                let mut i: usize = 0;
                while i < segs.len()
                    invariant
                        self.wf(),
                        crate::types::absorbs(self.subst.binds@, s_entry),
                        self.scope_values@ == sv_entry,
                        self.scope_types@ == st_entry,
                        self.modules@ == md_entry,
                        self.types@ == env_entry.types,
                        self.aliases@ == env_entry.aliases,
                        self.type_names@ == tn_entry,
                        extends_locals(l_entry, self.locals@),
                        i <= segs@.len(),
                        nodes@ == done,
                        crate::types::absorbs(self.subst.binds@, s_unified),
                        cs.len() == i + 1,
                        cs[0] == bindings(l_entry),
                        cs.last() == bindings(self.locals@),
                        forall|k: int|
                            0 <= k < i ==> crate::typing::sound_pattern(
                                self.subst.binds@,
                                env_entry,
                                cs[k],
                                (#[trigger] segs@[k]).value,
                                crate::typing::segment_type(segs@[k].kind),
                                cs[k + 1],
                            ),
                    decreases segs@.len() - i,
                {
                    let st = segment_ty(&segs[i].kind);
                    let ghost s_before = self.subst.binds@;
                    self.infer_pattern(&segs[i].value, &st, &mut inner, fuel - 1)?;
                    proof {
                        assert forall|k: int| 0 <= k < i implies crate::typing::sound_pattern(
                            self.subst.binds@,
                            env_entry,
                            cs[k],
                            (#[trigger] segs@[k]).value,
                            crate::typing::segment_type(segs@[k].kind),
                            cs[k + 1],
                        ) by {
                            crate::typing::lemma_sound_pattern_refine(
                                self.subst.binds@,
                                env_entry,
                                s_before,
                                cs[k],
                                segs@[k].value,
                                crate::typing::segment_type(segs@[k].kind),
                                cs[k + 1],
                            );
                        }
                        cs = cs.push(bindings(self.locals@));
                    }
                    i = i + 1;
                }
                proof {
                    crate::types::lemma_absorbs_keeps_equal(
                        self.subst.binds@,
                        s_unified,
                        *expected,
                        Ty::Con(7),
                    );
                    crate::typing::lemma_sound_pattern_bits(self.subst.binds@, env_entry, *p, *expected, cs);
                }
                Ok(None)
            },
        }
    }

    /// Infers a case expression. A subject that is a local variable is
    /// known, inside a clause, to have the variant its patterns require.
    fn infer_case(&mut self, subjects: &Vec<Expr>, clauses: &Vec<Clause>, fuel: usize) -> (r:
        Result<Typed, TypeError>)
        requires
            old(self).wf(),
        ensures
            r matches Ok(t) ==> exists|stys: Seq<Ty>|
                #[trigger] crate::typing::sound_all(
                    final(self).subst.binds@,
                    old(self).env(),
                    bindings(old(self).locals@),
                    subjects@,
                    stys,
                ) && forall|c: int|
                    0 <= c < clauses@.len() ==> crate::typing::sound_clause(
                        final(self).subst.binds@,
                        old(self).env(),
                        bindings(old(self).locals@),
                        #[trigger] clauses@[c],
                        stys,
                        t.ty,
                    ),
            final(self).wf(),
            crate::types::absorbs(final(self).subst.binds@, old(self).subst.binds@),
            final(self).scope_values@ == old(self).scope_values@,
            final(self).scope_types@ == old(self).scope_types@,
            final(self).modules@ == old(self).modules@,
            final(self).types@ == old(self).types@,
            final(self).aliases@ == old(self).aliases@,
            final(self).type_names@ == old(self).type_names@,
            r is Ok ==> final(self).locals@ == old(self).locals@,
        decreases fuel, 1nat,
    {
        let ghost s_entry = self.subst.binds@;
        let ghost sv_entry = self.scope_values@;
        let ghost env_entry = self.env();
        let ghost tn_entry = self.type_names@;
        let ghost st_entry = self.scope_types@;
        let ghost md_entry = self.modules@;
        let ghost l_entry = self.locals@;
        if fuel == 0 {
            return Err(TypeError::TooDeep);
        }
        let mut stys: Vec<Ty> = Vec::new();
        let mut snames: Vec<Option<Vec<char>>> = Vec::new();
        let mut i: usize = 0;
        while i < subjects.len()
            invariant
                self.wf(),
                crate::types::absorbs(self.subst.binds@, s_entry),
                self.scope_values@ == sv_entry,
                self.scope_types@ == st_entry,
                self.modules@ == md_entry,
                self.types@ == env_entry.types,
                self.aliases@ == env_entry.aliases,
                self.type_names@ == tn_entry,
                self.locals@ == l_entry,
                i <= subjects@.len(),
                stys@.len() == i,
                snames@.len() == i,
                forall|k: int|
                    0 <= k < i ==> sound_expr(
                        self.subst.binds@,
                        env_entry,
                        bindings(l_entry),
                        #[trigger] subjects@[k],
                        stys@[k],
                    ),
            decreases subjects@.len() - i,
        {
            let ghost s_before = self.subst.binds@;
            let t = self.infer_expr(&subjects[i], fuel - 1)?;
            stys.push(t.ty);
            proof {
                assert forall|k: int| 0 <= k < i + 1 implies sound_expr(
                    self.subst.binds@,
                    env_entry,
                    bindings(l_entry),
                    #[trigger] subjects@[k],
                    stys@[k],
                ) by {
                    if k < i {
                        lemma_sound_expr_refine(
                            self.subst.binds@,
                            env_entry,
                            s_before,
                            bindings(l_entry),
                            subjects@[k],
                            stys@[k],
                        );
                    }
                }
            }
            let name = match &subjects[i] {
                Expr::Var(x) => {
                    if find_local(&self.locals, x).is_some() {
                        Some(copy_name(x))
                    } else {
                        None
                    }
                },
                _ => None,
            };
            snames.push(name);
            i = i + 1;
        }
        let ghost s_subjects = self.subst.binds@;
        let ret = self.fresh_var();
        proof {
            assert forall|k: int| 0 <= k < subjects@.len() implies sound_expr(
                self.subst.binds@,
                env_entry,
                bindings(l_entry),
                #[trigger] subjects@[k],
                stys@[k],
            ) by {
                lemma_sound_expr_refine(
                    self.subst.binds@,
                    env_entry,
                    s_subjects,
                    bindings(l_entry),
                    subjects@[k],
                    stys@[k],
                );
            }
        }
        let mut rows: Vec<Vec<Node>> = Vec::new();
        let mut c: usize = 0;
        while c < clauses.len()
            invariant
                self.wf(),
                crate::types::absorbs(self.subst.binds@, s_entry),
                self.scope_values@ == sv_entry,
                self.scope_types@ == st_entry,
                self.modules@ == md_entry,
                self.types@ == env_entry.types,
                self.aliases@ == env_entry.aliases,
                self.type_names@ == tn_entry,
                self.locals@ == l_entry,
                c <= clauses@.len(),
                stys@.len() == subjects@.len(),
                snames@.len() == subjects@.len(),
                forall|k: int|
                    0 <= k < subjects@.len() ==> sound_expr(
                        self.subst.binds@,
                        env_entry,
                        bindings(l_entry),
                        #[trigger] subjects@[k],
                        stys@[k],
                    ),
                forall|k: int|
                    0 <= k < c ==> crate::typing::sound_clause(
                        self.subst.binds@,
                        env_entry,
                        bindings(l_entry),
                        #[trigger] clauses@[k],
                        stys@,
                        ret,
                    ),
            decreases clauses@.len() - c,
        {
            let ghost s_clause = self.subst.binds@;
            let clause = &clauses[c];
            let mark = self.locals.len();
            let mut variants: Vec<Option<usize>> = Vec::new();
            let mut a: usize = 0;
            while a < clause.alternatives.len()
                invariant
                    self.wf(),
                    crate::types::absorbs(self.subst.binds@, s_entry),
                    self.scope_values@ == sv_entry,
                    self.scope_types@ == st_entry,
                    self.modules@ == md_entry,
                    self.types@ == env_entry.types,
                    self.aliases@ == env_entry.aliases,
                    self.type_names@ == tn_entry,
                    crate::types::absorbs(self.subst.binds@, s_clause),
                    extends_locals(l_entry, self.locals@),
                    mark == l_entry.len(),
                    a <= clause.alternatives@.len(),
                    stys@.len() == subjects@.len(),
                    a > 0 ==> variants@.len() == stys@.len(),
                    crate::typing::rows_ok(self.subst.binds@, env_entry, bindings(l_entry), *clause, stys@, a as int),
                decreases clause.alternatives@.len() - a,
            {
                let ghost s_alt = self.subst.binds@;
                let row = &clause.alternatives[a];
                if row.len() != stys.len() {
                    return Err(TypeError::IncorrectArity { expected: stys.len(), given: row.len() });
                }
                let alt_mark = self.locals.len();
                let ghost alt_ctx = bindings(self.locals@);
                proof {
                    crate::typing::lemma_bindings_prefix(l_entry, self.locals@);
                }
                let ghost mut cs: Seq<Seq<(Seq<char>, Ty)>> = seq![alt_ctx];
                let mut k: usize = 0;
                let mut row_variants: Vec<Option<usize>> = Vec::new();
                let mut row_nodes: Vec<Node> = Vec::new();
                while k < row.len()
                    invariant
                        self.wf(),
                        crate::types::absorbs(self.subst.binds@, s_entry),
                        self.scope_values@ == sv_entry,
                        self.scope_types@ == st_entry,
                        self.modules@ == md_entry,
                        self.types@ == env_entry.types,
                        self.aliases@ == env_entry.aliases,
                        self.type_names@ == tn_entry,
                    crate::types::absorbs(self.subst.binds@, s_clause),
                        extends_locals(l_entry, self.locals@),
                        mark == l_entry.len(),
                        mark <= alt_mark <= self.locals@.len(),
                        k <= row@.len(),
                        row@.len() == stys@.len(),
                        row_variants@.len() == k,
                        crate::types::absorbs(self.subst.binds@, s_alt),
                        cs.len() == k + 1,
                        cs[0] == alt_ctx,
                        cs.last() == bindings(self.locals@),
                        forall|q: int|
                            0 <= q < k ==> crate::typing::sound_pattern(
                                self.subst.binds@,
                                env_entry,
                                cs[q],
                                #[trigger] row@[q],
                                stys@[q],
                                cs[q + 1],
                            ),
                    decreases row@.len() - k,
                {
                    let ghost s_before = self.subst.binds@;
                    let v = self.infer_pattern(&row[k], &stys[k], &mut row_nodes, fuel - 1)?;
                    proof {
                        assert forall|q: int| 0 <= q < k implies crate::typing::sound_pattern(
                            self.subst.binds@,
                            env_entry,
                            cs[q],
                            #[trigger] row@[q],
                            stys@[q],
                            cs[q + 1],
                        ) by {
                            crate::typing::lemma_sound_pattern_refine(
                                self.subst.binds@,
                                env_entry,
                                s_before,
                                cs[q],
                                row@[q],
                                stys@[q],
                                cs[q + 1],
                            );
                        }
                        cs = cs.push(bindings(self.locals@));
                    }
                    row_variants.push(v);
                    k = k + 1;
                }
                proof {
                    crate::typing::lemma_sound_row(self.subst.binds@, env_entry, cs, row@, stys@);
                }
                let ghost s_row = self.subst.binds@;
                if clause.guard.is_none() {
                    rows.push(row_nodes);
                }
                if a == 0 {
                    variants = row_variants;
                } else {
                    self.merge_alternative(mark, alt_mark)?;
                    let mut k2: usize = 0;
                    while k2 < variants.len()
                        invariant
                            k2 <= variants@.len(),
                            variants@.len() == row_variants@.len(),
                        decreases variants@.len() - k2,
                    {
                        if variants[k2] != row_variants[k2] {
                            variants.set(k2, None);
                        }
                        k2 = k2 + 1;
                    }
                }
                proof {
                    let s_now = self.subst.binds@;
                    crate::typing::lemma_rows_ok_refine(
                        s_now,
                        env_entry,
                        s_alt,
                        bindings(l_entry),
                        *clause,
                        stys@,
                        a as int,
                    );
                    crate::typing::lemma_sound_row_refine(s_now, env_entry, s_row, cs, row@, stys@);
                    assert(crate::typing::sound_row(s_now, env_entry, cs, clause.alternatives@[a as int]@, stys@));
                    assert(bindings(l_entry).is_prefix_of(cs[0]));
                    assert forall|a2: int| 0 <= a2 < a + 1 implies #[trigger] crate::typing::row_ok_at(
                        s_now,
                        env_entry,
                        bindings(l_entry),
                        *clause,
                        stys@,
                        a2,
                    ) by {
                        if a2 == a {
                            assert(crate::typing::sound_row(s_now, env_entry, cs, clause.alternatives@[a2]@, stys@));
                        }
                    }
                }
                a = a + 1;
            }
            let ghost s_alts = self.subst.binds@;
            proof {
                assert(crate::typing::rows_ok(
                    s_alts,
                    env_entry,
                    bindings(l_entry),
                    *clause,
                    stys@,
                    clause.alternatives@.len() as int,
                ));
            }
            let mut k: usize = 0;
            while k < variants.len() && k < snames.len()
                invariant
                    crate::types::absorbs(self.subst.binds@, s_alts),
                    self.wf(),
                    crate::types::absorbs(self.subst.binds@, s_entry),
                    self.scope_values@ == sv_entry,
                    self.scope_types@ == st_entry,
                    self.modules@ == md_entry,
                    self.types@ == env_entry.types,
                    self.aliases@ == env_entry.aliases,
                    self.type_names@ == tn_entry,
                    crate::types::absorbs(self.subst.binds@, s_clause),
                    extends_locals(l_entry, self.locals@),
                    mark == l_entry.len(),
                    k <= variants@.len(),
                    stys@.len() == snames@.len(),
                decreases variants@.len() - k,
            {
                match (&snames[k], variants[k]) {
                    (Some(x), Some(v)) => {
                        if k < stys.len() {
                            self.push_local(x, &stys[k], Some(v));
                        }
                    },
                    _ => {},
                }
                k = k + 1;
            }
            let ghost cx = bindings(self.locals@);
            proof {
                crate::typing::lemma_bindings_prefix(l_entry, self.locals@);
            }
            match &clause.guard {
                Some(g) => {
                    self.infer_expected(g, &bool_ty(), fuel - 1)?;
                },
                None => {},
            }
            let ghost s_guard = self.subst.binds@;
            let body = self.infer_expr(&clause.body, fuel - 1)?;
            let ghost s_body = self.subst.binds@;
            self.unify_types(&ret, &body.ty)?;
            proof {
                let s_now = self.subst.binds@;
                if clause.guard is Some {
                    lemma_sound_expr_refine(s_now, env_entry, s_guard, cx, clause.guard->Some_0, Ty::Con(3));
                }
                lemma_sound_expr_refine(s_now, env_entry, s_body, cx, clause.body, body.ty);
                lemma_sound_expr_respects(s_now, env_entry, cx, clause.body, body.ty, ret);
                crate::typing::lemma_rows_ok_refine(
                    s_now,
                    env_entry,
                    s_alts,
                    bindings(l_entry),
                    *clause,
                    stys@,
                    clause.alternatives@.len() as int,
                );
                assert(crate::typing::sound_clause(s_now, env_entry, bindings(l_entry), *clause, stys@, ret));
                assert forall|k: int| 0 <= k < c + 1 implies crate::typing::sound_clause(
                    s_now,
                    env_entry,
                    bindings(l_entry),
                    #[trigger] clauses@[k],
                    stys@,
                    ret,
                ) by {
                    if k < c {
                        crate::typing::lemma_sound_clause_refine(
                            s_now,
                            env_entry,
                            s_clause,
                            bindings(l_entry),
                            clauses@[k],
                            stys@,
                            ret,
                        );
                    }
                }
                assert forall|k: int| 0 <= k < subjects@.len() implies sound_expr(
                    s_now,
                    env_entry,
                    bindings(l_entry),
                    #[trigger] subjects@[k],
                    stys@[k],
                ) by {
                    lemma_sound_expr_refine(s_now, env_entry, s_clause, bindings(l_entry), subjects@[k], stys@[k]);
                }
            }
            self.truncate_locals(mark);
            c = c + 1;
        }
        proof {
            assert(crate::typing::sound_all(self.subst.binds@, env_entry, bindings(l_entry), subjects@, stys@));
        }
        match is_useful(&rows, subjects.len(), exhaustiveness_fuel()) {
            Some(false) => {},
            Some(true) => {
                return Err(TypeError::InexhaustiveCase);
            },
            None => {
                return Err(TypeError::TooDeep);
            },
        }
        Ok(Typed { ty: ret, variant: None })
    }

    /// Checks that the bindings of a later alternative (from `alt_mark`)
    /// match those of the first (from `mark` to `alt_mark`), then drops them.
    #[verifier::rlimit(60)]
    fn merge_alternative(&mut self, mark: usize, alt_mark: usize) -> (r: Result<(), TypeError>)
        requires
            old(self).wf(),
        ensures
            final(self).wf(),
            crate::types::absorbs(final(self).subst.binds@, old(self).subst.binds@),
            final(self).scope_values@ == old(self).scope_values@,
            final(self).scope_types@ == old(self).scope_types@,
            final(self).modules@ == old(self).modules@,
            final(self).types@ == old(self).types@,
            final(self).aliases@ == old(self).aliases@,
            final(self).type_names@ == old(self).type_names@,
            r is Ok && mark <= alt_mark <= old(self).locals@.len() ==> final(self).locals@.len()
                == alt_mark && final(self).locals@.subrange(0, mark as int) =~= old(self).locals@.subrange(
                0,
                mark as int,
            ),
            mark <= alt_mark <= old(self).locals@.len() ==> (r is Ok ==> forall|i: int|
                alt_mark <= i < old(self).locals@.len() ==> #[trigger] unified_in(
                    final(self).subst.binds@,
                    old(self).locals@,
                    mark as int,
                    alt_mark as int,
                    i,
                )),
            mark <= alt_mark <= old(self).locals@.len() && (exists|i: int|
                alt_mark <= i < old(self).locals@.len() && !#[trigger] bound_in(
                    old(self).locals@,
                    mark as int,
                    alt_mark as int,
                    i,
                )) ==> r is Err,
            mark <= alt_mark <= old(self).locals@.len() ==> (r matches Err(e) ==> (e is AlternativeBindings
                ==> exists|i: int|
                alt_mark <= i < old(self).locals@.len() && (#[trigger] old(self).locals@[i]).name@
                    == e->AlternativeBindings_0@ && forall|j: int|
                    mark <= j < alt_mark ==> (#[trigger] old(self).locals@[j]).name@
                        != e->AlternativeBindings_0@)),
    {
        let ghost l0 = self.locals@;
        let ghost ok_range = mark <= alt_mark <= l0.len();
        let ghost s_entry = self.subst.binds@;
        let ghost sv_entry = self.scope_values@;
        let ghost env_entry = self.env();
        let ghost tn_entry = self.type_names@;
        let ghost st_entry = self.scope_types@;
        let ghost md_entry = self.modules@;
        let n = self.locals.len();
        let mut i = if alt_mark <= n {
            alt_mark
        } else {
            n
        };
        while i < n
            invariant
                self.wf(),
                crate::types::absorbs(self.subst.binds@, s_entry),
                self.scope_values@ == sv_entry,
                self.scope_types@ == st_entry,
                self.modules@ == md_entry,
                self.types@ == env_entry.types,
                self.aliases@ == env_entry.aliases,
                self.type_names@ == tn_entry,
                self.locals@.len() == n,
                self.locals@.subrange(0, mark as int) =~= old(self).locals@.subrange(0, mark as int),
                i <= n,
                forall|k: int|
                    0 <= k < n ==> (#[trigger] self.locals@[k]).name@ == l0[k].name@ && self.locals@[k].ty
                        == l0[k].ty,
                ok_range ==> alt_mark <= i,
                ok_range ==> forall|i2: int|
                    alt_mark <= i2 < i ==> #[trigger] unified_in(
                        self.subst.binds@,
                        l0,
                        mark as int,
                        alt_mark as int,
                        i2,
                    ),
            decreases n - i,
        {
            let mut found: Option<usize> = None;
            let mut j = mark;
            while j < alt_mark && j < n
                invariant
                    mark <= j,
                    self.locals@.len() == n,
                    found matches Some(x) ==> mark <= x < n && x < alt_mark && self.locals@[x as int].name@
                        == self.locals@[i as int].name@,
                    found is None ==> forall|j2: int|
                        mark <= j2 < j ==> (#[trigger] self.locals@[j2]).name@ != self.locals@[i as int].name@,
                    i < n,
                    ok_range ==> j <= alt_mark,
                decreases n - j,
            {
                if same_name(&self.locals[j].name, &self.locals[i].name) {
                    found = Some(j);
                }
                j = j + 1;
            }
            match found {
                Some(j) => {
                    let t1 = copy_ty(&self.locals[j].ty);
                    let t2 = copy_ty(&self.locals[i].ty);
                    let v1 = self.locals[j].variant;
                    let v2 = self.locals[i].variant;
                    let ghost s_before = self.subst.binds@;
                    self.unify_types(&t1, &t2)?;
                    proof {
                        if ok_range {
                            assert(l0[j as int].name@ == l0[i as int].name@);
                            assert forall|i2: int| alt_mark <= i2 < i + 1 implies #[trigger] unified_in(
                                self.subst.binds@,
                                l0,
                                mark as int,
                                alt_mark as int,
                                i2,
                            ) by {
                                if i2 < i {
                                    assert(unified_in(s_before, l0, mark as int, alt_mark as int, i2));
                                    let j2 = choose|j2: int|
                                        mark <= j2 < alt_mark && l0[j2].name@ == l0[i2].name@
                                            && crate::types::apply(s_before, l0[j2].ty)
                                            == crate::types::apply(s_before, l0[i2].ty);
                                    crate::types::lemma_absorbs_keeps_equal(
                                        self.subst.binds@,
                                        s_before,
                                        l0[j2].ty,
                                        l0[i2].ty,
                                    );
                                } else {
                                    assert(l0[j as int].name@ == l0[i2].name@);
                                    assert(crate::types::apply(self.subst.binds@, l0[j as int].ty)
                                        == crate::types::apply(self.subst.binds@, l0[i2].ty));
                                }
                            }
                        }
                    }
                    if v1 != v2 && j < self.locals.len() {
                        let ghost lb = self.locals@;
                        let old_local = self.locals.remove(j);
                        self.locals.insert(j, Local { name: old_local.name, ty: old_local.ty, variant: None });
                        proof {
                            assert(self.locals@ =~= lb.update(
                                j as int,
                                Local { name: old_local.name, ty: old_local.ty, variant: None },
                            ));
                        }
                    }
                },
                None => {
                    proof {
                        if ok_range {
                            assert forall|j2: int|
                                mark <= j2 < alt_mark implies (#[trigger] l0[j2]).name@ != l0[i as int].name@ by {
                                assert(self.locals@[j2].name@ == l0[j2].name@);
                                assert(self.locals@[i as int].name@ == l0[i as int].name@);
                            }
                        }
                    }
                    if i < self.locals.len() {
                        return Err(TypeError::AlternativeBindings(copy_name(&self.locals[i].name)));
                    }
                    return Err(TypeError::AlternativeBindings(Vec::new()));
                },
            }
            i = i + 1;
        }
        proof {
            if ok_range {
                assert forall|i2: int| alt_mark <= i2 < l0.len() implies #[trigger] bound_in(
                    l0,
                    mark as int,
                    alt_mark as int,
                    i2,
                ) by {
                    assert(unified_in(self.subst.binds@, l0, mark as int, alt_mark as int, i2));
                }
            }
        }
        self.truncate_locals(alt_mark);
        Ok(())
    }
}

} // verus!
