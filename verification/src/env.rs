use vstd::prelude::*;
use crate::lexer::{copy_name, same_name};
use crate::print::{injective, lemma_type_text_renamed, renamed, type_text, VarKey};
use crate::types::{copy_ty, no_gens, Subst, Ty};

verus! {

/// Who may refer to a type or value.
pub enum Publicity {
    Public,
    /// Public, but only meant for the package that defines it.
    Internal,
    Private,
}

impl Publicity {
    pub open spec fn importable(&self) -> bool {
        !(*self is Private)
    }

    /// Whether this is the publicity of an internal item.
    pub fn is_internal(&self) -> (r: bool)
        ensures
            r == (*self is Internal),
    {
        matches!(self, Publicity::Internal)
    }

    /// Whether other modules may import the item.
    pub fn is_importable(&self) -> (r: bool)
        ensures
            r == self.importable(),
    {
        !matches!(self, Publicity::Private)
    }

    pub fn copy(&self) -> (r: Publicity)
        ensures
            r == *self,
    {
        match self {
            Publicity::Public => Publicity::Public,
            Publicity::Internal => Publicity::Internal,
            Publicity::Private => Publicity::Private,
        }
    }
}

/// A field of a constructor; its type refers to the type parameters as
/// `Gen(0)`, `Gen(1)`, ...
pub struct Field {
    pub label: Option<Vec<char>>,
    pub ty: Ty,
}

/// A constructor of a custom type.
pub struct Variant {
    pub name: Vec<char>,
    pub fields: Vec<Field>,
}

/// A named type.
pub struct TypeCon {
    pub module: Vec<char>,
    pub name: Vec<char>,
    pub arity: usize,
    pub publicity: Publicity,
    pub variants: Vec<Variant>,
}

/// What a type name stands for: a named type, or an alias with the given
/// number of parameters for a type over `Gen(0)`, `Gen(1)`, ...
pub enum TypeRef {
    Con(usize),
    Alias(usize, Ty),
}

pub struct TypeEntry {
    pub name: Vec<char>,
    pub kind: TypeRef,
    pub publicity: Publicity,
}

/// A top level value: a function, a constant or a constructor.
pub struct ValueInfo {
    pub name: Vec<char>,
    /// Its type; quantified variables are `Gen` once `generalized` holds.
    pub scheme: Ty,
    pub generalized: bool,
    /// The labels of its parameters or fields, when it has any.
    pub labels: Vec<Option<Vec<char>>>,
    /// For a constructor, its type and the index of its variant.
    pub ctor: Option<(usize, usize)>,
    pub publicity: Publicity,
}

/// What a compiled module offers to the modules that import it.
pub struct ModuleInterface {
    pub name: Vec<char>,
    /// The package the module belongs to (empty for the prelude).
    pub package: Vec<char>,
    pub types: Vec<TypeEntry>,
    pub values: Vec<ValueInfo>,
}

/// A local variable, with the constructor it is known to have been built
/// with, when that is known.
pub struct Local {
    pub name: Vec<char>,
    pub ty: Ty,
    pub variant: Option<usize>,
}

/// A typed expression: its type and the constructor variant it is known to
/// have, when known.
pub struct Typed {
    pub ty: Ty,
    pub variant: Option<usize>,
}

pub fn copy_opt_name(n: &Option<Vec<char>>) -> (r: Option<Vec<char>>)
    ensures
        r is Some == n is Some,
        r is Some ==> r->0@ == n->0@,
{
    match n {
        Some(x) => Some(copy_name(x)),
        None => None,
    }
}

/// Two lists of labels carry the same labels at the same positions.
pub open spec fn labels_alike(a: Seq<Option<Vec<char>>>, b: Seq<Option<Vec<char>>>) -> bool {
    &&& a.len() == b.len()
    &&& forall|i: int| 0 <= i < a.len() ==> (#[trigger] a[i] is Some) == (b[i] is Some)
    &&& forall|i: int| 0 <= i < a.len() && a[i] is Some ==> (#[trigger] a[i])->0@ == b[i]->0@
}

pub fn copy_labels(l: &Vec<Option<Vec<char>>>) -> (r: Vec<Option<Vec<char>>>)
    ensures
        labels_alike(r@, l@),
{
    let mut r: Vec<Option<Vec<char>>> = Vec::new();
    let mut i: usize = 0;
    while i < l.len()
        invariant
            i <= l@.len(),
            r@.len() == i,
            labels_alike(r@, l@.take(i as int)),
        decreases l@.len() - i,
    {
        r.push(copy_opt_name(&l[i]));
        i = i + 1;
    }
    r
}

pub fn copy_value(v: &ValueInfo) -> (r: ValueInfo)
    ensures
        r.scheme == v.scheme,
        r.generalized == v.generalized,
        r.ctor == v.ctor,
        r.publicity == v.publicity,
        r.name@ == v.name@,
        labels_alike(r.labels@, v.labels@),
{
    ValueInfo {
        name: copy_name(&v.name),
        scheme: copy_ty(&v.scheme),
        generalized: v.generalized,
        labels: copy_labels(&v.labels),
        ctor: v.ctor,
        publicity: v.publicity.copy(),
    }
}

pub fn copy_type_ref(k: &TypeRef) -> (r: TypeRef)
    ensures
        r == *k,
{
    match k {
        TypeRef::Con(c) => TypeRef::Con(*c),
        TypeRef::Alias(n, t) => TypeRef::Alias(*n, copy_ty(t)),
    }
}

pub fn copy_type_entry(e: &TypeEntry) -> (r: TypeEntry)
    ensures
        r.kind == e.kind,
        r.publicity == e.publicity,
        r.name@ == e.name@,
{
    TypeEntry { name: copy_name(&e.name), kind: copy_type_ref(&e.kind), publicity: e.publicity.copy() }
}

/// The slot of the last value named `name`.
pub fn find_value(vs: &Vec<ValueInfo>, name: &Vec<char>) -> (r: Option<usize>)
    ensures
        r matches Some(i) ==> i < vs@.len() && vs@[i as int].name@ == name@,
        r matches Some(i) ==> forall|k: int| i < k < vs@.len() ==> vs@[k].name@ != name@,
        r is None ==> forall|k: int| 0 <= k < vs@.len() ==> vs@[k].name@ != name@,
{
    let mut i = vs.len();
    while i > 0
        invariant
            i <= vs@.len(),
            forall|k: int| i <= k < vs@.len() ==> vs@[k].name@ != name@,
        decreases i,
    {
        i = i - 1;
        if same_name(&vs[i].name, name) {
            return Some(i);
        }
    }
    None
}

/// The slot of the last type named `name`.
pub fn find_type(ts: &Vec<TypeEntry>, name: &Vec<char>) -> (r: Option<usize>)
    ensures
        r matches Some(i) ==> i < ts@.len() && ts@[i as int].name@ == name@,
        r matches Some(i) ==> forall|k: int| i < k < ts@.len() ==> ts@[k].name@ != name@,
        r is None ==> forall|k: int| 0 <= k < ts@.len() ==> ts@[k].name@ != name@,
{
    let mut i = ts.len();
    while i > 0
        invariant
            i <= ts@.len(),
            forall|k: int| i <= k < ts@.len() ==> ts@[k].name@ != name@,
        decreases i,
    {
        i = i - 1;
        if same_name(&ts[i].name, name) {
            return Some(i);
        }
    }
    None
}

/// Slot `i` holds the innermost local named `name`: the last one pushed.
pub open spec fn innermost_local(ls: Seq<Local>, name: Seq<char>, i: int) -> bool {
    &&& 0 <= i < ls.len()
    &&& ls[i].name@ == name
    &&& forall|k: int| i < k < ls.len() ==> ls[k].name@ != name
}

/// The slot of the last local named `name`.
pub fn find_local(ls: &Vec<Local>, name: &Vec<char>) -> (r: Option<usize>)
    ensures
        r matches Some(i) ==> i < ls@.len() && ls@[i as int].name@ == name@,
        r matches Some(i) ==> forall|k: int| i < k < ls@.len() ==> ls@[k].name@ != name@,
        r is None ==> forall|k: int| 0 <= k < ls@.len() ==> ls@[k].name@ != name@,
{
    let mut i = ls.len();
    while i > 0
        invariant
            i <= ls@.len(),
            forall|k: int| i <= k < ls@.len() ==> ls@[k].name@ != name@,
        decreases i,
    {
        i = i - 1;
        if same_name(&ls[i].name, name) {
            return Some(i);
        }
    }
    None
}

/// The slot of the module named `name`.
pub fn find_module(ms: &Vec<ModuleInterface>, name: &Vec<char>) -> (r: Option<usize>)
    ensures
        r matches Some(i) ==> i < ms@.len() && ms@[i as int].name@ == name@,
        r matches Some(i) ==> forall|k: int| i < k < ms@.len() ==> ms@[k].name@ != name@,
        r is None ==> forall|k: int| 0 <= k < ms@.len() ==> ms@[k].name@ != name@,
{
    let mut i = ms.len();
    while i > 0
        invariant
            i <= ms@.len(),
            forall|k: int| i <= k < ms@.len() ==> ms@[k].name@ != name@,
        decreases i,
    {
        i = i - 1;
        if same_name(&ms[i].name, name) {
            return Some(i);
        }
    }
    None
}

/// Whether parameter `i` carries the label `l`.
pub open spec fn has_label(labels: Seq<Option<Vec<char>>>, i: int, l: Seq<char>) -> bool {
    labels[i] is Some && labels[i]->0@ == l
}

/// `i` is the first position of `labels` that carries the label `l`.
pub open spec fn first_label(labels: Seq<Option<Vec<char>>>, l: Seq<char>, i: int) -> bool {
    &&& 0 <= i < labels.len()
    &&& has_label(labels, i, l)
    &&& forall|k: int| 0 <= k < i ==> !has_label(labels, k, l)
}

/// Alike labels have their labels at the same first positions.
pub proof fn lemma_first_label_alike(
    a: Seq<Option<Vec<char>>>,
    b: Seq<Option<Vec<char>>>,
    l: Seq<char>,
    i: int,
)
    requires
        labels_alike(a, b),
    ensures
        first_label(a, l, i) == first_label(b, l, i),
{
    assert forall|k: int| 0 <= k < a.len() implies has_label(a, k, l) == has_label(b, k, l) by {
        assert(a[k] is Some == b[k] is Some);
    }
}

/// The position of `label` among `labels`: the first that carries it.
pub fn find_label(labels: &Vec<Option<Vec<char>>>, label: &Vec<char>) -> (r: Option<usize>)
    ensures
        r matches Some(i) ==> i < labels@.len() && has_label(labels@, i as int, label@),
        r matches Some(i) ==> forall|k: int| 0 <= k < i ==> !has_label(labels@, k, label@),
        r is None ==> forall|k: int| 0 <= k < labels@.len() ==> !has_label(labels@, k, label@),
{
    let mut i: usize = 0;
    while i < labels.len()
        invariant
            i <= labels@.len(),
            forall|k: int| 0 <= k < i ==> !has_label(labels@, k, label@),
        decreases labels@.len() - i,
    {
        match &labels[i] {
            Some(l) => {
                if same_name(l, label) {
                    return Some(i);
                }
            },
            None => {},
        }
        i = i + 1;
    }
    None
}

/// `Gen(i)` replaced by `args[i]` throughout, where `args` has an `i`-th
/// element.
pub open spec fn gens_replaced(t: Ty, args: Seq<Ty>) -> Ty
    decreases t,
{
    match t {
        Ty::Gen(g) => if g < args.len() {
            args[g as int]
        } else {
            t
        },
        Ty::App(f, a) => Ty::App(Box::new(gens_replaced(*f, args)), Box::new(gens_replaced(*a, args))),
        _ => t,
    }
}

/// `Gen(i)` replaced by `args[i]` throughout a scheme.
pub fn subst_gens(t: &Ty, args: &Vec<Ty>) -> (r: Ty)
    ensures
        r == gens_replaced(*t, args@),
    decreases t,
{
    match t {
        Ty::Gen(g) => {
            if *g < args.len() {
                copy_ty(&args[*g])
            } else {
                Ty::Gen(*g)
            }
        },
        Ty::App(f, a) => Ty::App(Box::new(subst_gens(f, args)), Box::new(subst_gens(a, args))),
        _ => copy_ty(t),
    }
}

/// `head` applied to `args`, left to right.
pub open spec fn applied(head: Ty, args: Seq<Ty>) -> Ty
    decreases args.len(),
{
    if args.len() == 0 {
        head
    } else {
        Ty::App(Box::new(applied(head, args.drop_last())), Box::new(args.last()))
    }
}

/// The head of an application spine.
pub open spec fn spine_head(t: Ty) -> Ty
    decreases t,
{
    match t {
        Ty::App(f, _) => spine_head(*f),
        _ => t,
    }
}

/// The arguments of an application spine, left to right.
pub open spec fn spine_args(t: Ty) -> Seq<Ty>
    decreases t,
{
    match t {
        Ty::App(f, a) => spine_args(*f).push(*a),
        _ => Seq::empty(),
    }
}

/// The function type with the given parameters and return type.
pub open spec fn fn_type(params: Seq<Ty>, ret: Ty) -> Ty {
    applied(Ty::FnCon(params.len() as usize), params.push(ret))
}

/// The tuple type of the given elements.
pub open spec fn tuple_type(elems: Seq<Ty>) -> Ty {
    applied(Ty::TupleCon(elems.len() as usize), elems)
}

/// A type is its spine's head applied to its spine's arguments.
pub proof fn lemma_spine(t: Ty)
    ensures
        applied(spine_head(t), spine_args(t)) == t,
        !(spine_head(t) is App),
    decreases t,
{
    match t {
        Ty::App(f, a) => {
            lemma_spine(*f);
            assert(spine_args(t).drop_last() =~= spine_args(*f));
        },
        _ => {},
    }
}

/// Applying a head that is no application gives a spine with that head and
/// those arguments.
pub proof fn lemma_applied_spine(head: Ty, args: Seq<Ty>)
    requires
        !(head is App),
    ensures
        spine_head(applied(head, args)) == head,
        spine_args(applied(head, args)) == args,
    decreases args.len(),
{
    if args.len() > 0 {
        lemma_applied_spine(head, args.drop_last());
        assert(args.drop_last().push(args.last()) =~= args);
    }
}

/// The head and the arguments of an application spine.
pub fn spine_of(t: &Ty) -> (r: (Ty, Vec<Ty>))
    ensures
        !(r.0 is App),
        r.0 == spine_head(*t),
        r.1@ == spine_args(*t),
    decreases t,
{
    match t {
        Ty::App(f, a) => {
            let (h, mut args) = spine_of(f);
            args.push(copy_ty(a));
            (h, args)
        },
        _ => (copy_ty(t), Vec::new()),
    }
}

/// `head` applied to `args`, left to right.
pub fn apply_all(head: Ty, args: &Vec<Ty>) -> (r: Ty)
    ensures
        r == applied(head, args@),
{
    let mut t = head;
    let mut i: usize = 0;
    while i < args.len()
        invariant
            i <= args@.len(),
            t == applied(head, args@.take(i as int)),
        decreases args@.len() - i,
    {
        assert(args@.take(i + 1).drop_last() =~= args@.take(i as int));
        t = Ty::App(Box::new(t), Box::new(copy_ty(&args[i])));
        i = i + 1;
    }
    assert(args@.take(args@.len() as int) =~= args@);
    t
}

/// The function type with the given parameters and return type.
pub fn fn_ty(params: &Vec<Ty>, ret: Ty) -> (r: Ty)
    ensures
        r == fn_type(params@, ret),
{
    let t = apply_all(Ty::FnCon(params.len()), params);
    assert(params@.push(ret).drop_last() =~= params@);
    Ty::App(Box::new(t), Box::new(ret))
}

/// The tuple type of the given elements.
pub fn tuple_ty(elems: &Vec<Ty>) -> (r: Ty)
    ensures
        r == tuple_type(elems@),
{
    apply_all(Ty::TupleCon(elems.len()), elems)
}

/// The parameters and return type of a function type: exactly the types of
/// which it is the function type.
pub fn fn_parts(t: &Ty) -> (r: Option<(Vec<Ty>, Ty)>)
    ensures
        r is Some <==> spine_head(*t) == Ty::FnCon((spine_args(*t).len() - 1) as usize)
            && spine_args(*t).len() > 0,
        r matches Some((ps, ret)) ==> *t == fn_type(ps@, ret),
{
    let (h, mut args) = spine_of(t);
    proof {
        lemma_spine(*t);
    }
    match h {
        Ty::FnCon(n) => {
            if args.len() > 0 && args.len() - 1 == n {
                let ghost all = args@;
                let ret = args.pop().unwrap();
                assert(args@.push(ret) =~= all);
                Some((args, ret))
            } else {
                None
            }
        },
        _ => None,
    }
}

/// The elements of a tuple type: exactly the types of which it is the tuple
/// type.
pub fn tuple_parts(t: &Ty) -> (r: Option<Vec<Ty>>)
    ensures
        r is Some <==> spine_head(*t) == Ty::TupleCon(spine_args(*t).len() as usize),
        r matches Some(es) ==> *t == tuple_type(es@),
{
    let (h, args) = spine_of(t);
    proof {
        lemma_spine(*t);
    }
    match h {
        Ty::TupleCon(n) => {
            if args.len() == n {
                Some(args)
            } else {
                None
            }
        },
        _ => None,
    }
}

/// The constructor and arguments of a named type.
pub fn named_parts(t: &Ty) -> (r: Option<(usize, Vec<Ty>)>)
    ensures
        r is Some <==> spine_head(*t) is Con,
        r matches Some((c, args)) ==> *t == applied(Ty::Con(c), args@),
{
    let (h, args) = spine_of(t);
    proof {
        lemma_spine(*t);
    }
    match h {
        Ty::Con(c) => Some((c, args)),
        _ => None,
    }
}

/// A type alias stands for a type without unification variables.
pub open spec fn entry_closed(e: TypeEntry) -> bool {
    e.kind matches TypeRef::Alias(_, t) ==> crate::types::no_vars(t)
}

/// Every type alias among the entries is closed.
pub open spec fn entries_closed(es: Seq<TypeEntry>) -> bool {
    forall|i: int| 0 <= i < es.len() ==> entry_closed(#[trigger] es[i])
}

/// Every named type variable stands for a type without unification
/// variables.
pub open spec fn vars_closed(vs: Seq<(Vec<char>, Ty)>) -> bool {
    forall|i: int| 0 <= i < vs.len() ==> crate::types::no_vars(#[trigger] vs[i].1)
}

/// A head without unification variables applied to arguments without them.
pub proof fn lemma_applied_no_vars(head: Ty, args: Seq<Ty>)
    requires
        crate::types::no_vars(head),
        forall|i: int| 0 <= i < args.len() ==> crate::types::no_vars(#[trigger] args[i]),
    ensures
        crate::types::no_vars(applied(head, args)),
    decreases args.len(),
{
    if args.len() > 0 {
        lemma_applied_no_vars(head, args.drop_last());
        assert(crate::types::no_vars(args[args.len() - 1]));
    }
}

/// Replacing quantified variables by types without unification variables
/// in a type without them.
pub proof fn lemma_gens_replaced_no_vars(t: Ty, args: Seq<Ty>)
    requires
        crate::types::no_vars(t),
        forall|i: int| 0 <= i < args.len() ==> crate::types::no_vars(#[trigger] args[i]),
    ensures
        crate::types::no_vars(gens_replaced(t, args)),
    decreases t,
{
    if let Ty::App(f, a) = t {
        lemma_gens_replaced_no_vars(*f, args);
        lemma_gens_replaced_no_vars(*a, args);
    }
}

/// Taking a function type apart gives back its parameters and return type.
pub proof fn lemma_fn_type_parts(params: Seq<Ty>, ret: Ty)
    requires
        params.len() < usize::MAX,
    ensures
        spine_head(fn_type(params, ret)) == Ty::FnCon(params.len() as usize),
        spine_args(fn_type(params, ret)) == params.push(ret),
{
    lemma_applied_spine(Ty::FnCon(params.len() as usize), params.push(ret));
}

/// Function types are equal only when their parameters and return types are.
pub proof fn lemma_fn_type_injective(p1: Seq<Ty>, r1: Ty, p2: Seq<Ty>, r2: Ty)
    requires
        p1.len() < usize::MAX,
        p2.len() < usize::MAX,
        fn_type(p1, r1) == fn_type(p2, r2),
    ensures
        p1 == p2,
        r1 == r2,
{
    lemma_fn_type_parts(p1, r1);
    lemma_fn_type_parts(p2, r2);
    assert(p1.push(r1).drop_last() =~= p1);
    assert(p2.push(r2).drop_last() =~= p2);
    assert(p1.push(r1).last() == r1);
}

/// Taking a tuple type apart gives back its elements.
pub proof fn lemma_tuple_type_parts(elems: Seq<Ty>)
    requires
        elems.len() <= usize::MAX,
    ensures
        spine_head(tuple_type(elems)) == Ty::TupleCon(elems.len() as usize),
        spine_args(tuple_type(elems)) == elems,
{
    lemma_applied_spine(Ty::TupleCon(elems.len() as usize), elems);
}

pub fn int_ty() -> (r: Ty)
    ensures
        r == Ty::Con(0),
{
    Ty::Con(0)
}

pub fn float_ty() -> (r: Ty)
    ensures
        r == Ty::Con(1),
{
    Ty::Con(1)
}

pub fn string_ty() -> (r: Ty)
    ensures
        r == Ty::Con(2),
{
    Ty::Con(2)
}

pub fn bool_ty() -> (r: Ty)
    ensures
        r == Ty::Con(3),
{
    Ty::Con(3)
}

pub fn nil_ty() -> (r: Ty)
    ensures
        r == Ty::Con(4),
{
    Ty::Con(4)
}

pub fn list_ty(e: Ty) -> (r: Ty)
    ensures
        r == Ty::App(Box::new(Ty::Con(5)), Box::new(e)),
{
    Ty::App(Box::new(Ty::Con(5)), Box::new(e))
}

pub fn bit_array_ty() -> (r: Ty)
    ensures
        r == Ty::Con(7),
{
    Ty::Con(7)
}

pub fn codepoint_ty() -> (r: Ty)
    ensures
        r == Ty::Con(8),
{
    Ty::Con(8)
}

/// `s` as a vector of characters.
pub fn chars_of(s: &str) -> (r: Vec<char>)
    ensures
        r@ == s@,
{
    crate::lexer::str_chars(s)
}

/// The renaming that exchanges the unification variable `s[i]` with the
/// quantified variable `i`, and leaves every other variable alone.
pub open spec fn swap_keys(s: Seq<usize>) -> spec_fn(VarKey) -> VarKey {
    |k: VarKey|
        if !k.0 && s.contains(k.1) {
            (true, s.index_of(k.1) as usize)
        } else if k.0 && (k.1 as int) < s.len() {
            (false, s[k.1 as int])
        } else {
            k
        }
}

proof fn lemma_swap_injective(s: Seq<usize>)
    requires
        s.no_duplicates(),
        s.len() <= usize::MAX,
    ensures
        injective(swap_keys(s)),
{
    let f = swap_keys(s);
    assert forall|x: VarKey, y: VarKey| #[trigger] f(x) == #[trigger] f(y) implies x == y by {
        if !x.0 && s.contains(x.1) {
        }
        if !y.0 && s.contains(y.1) {
        }
        if x.0 && (x.1 as int) < s.len() {
            assert(s.contains(s[x.1 as int]));
        }
        if y.0 && (y.1 as int) < s.len() {
            assert(s.contains(s[y.1 as int]));
        }
    }
}

/// Replaces every unification variable of a resolved type by a quantified
/// one, numbered by first appearance after those in `seen`. On a type with
/// no quantified variable, this is a one to one renaming of its variables.
pub fn generalize_resolved(t: &Ty, seen: &mut Vec<usize>) -> (r: Ty)
    requires
        old(seen)@.no_duplicates(),
    ensures
        crate::types::no_vars(r),
        final(seen)@.no_duplicates(),
        old(seen)@.is_prefix_of(final(seen)@),
        no_gens(*t) ==> forall|s: Seq<usize>|
            #![trigger renamed(*t, swap_keys(s))]
            final(seen)@.is_prefix_of(s) && s.no_duplicates() ==> r == renamed(*t, swap_keys(s)),
    decreases t,
{
    match t {
        Ty::Var(v) => {
            let mut i: usize = 0;
            while i < seen.len()
                invariant
                    i <= seen@.len(),
                    forall|j: int| 0 <= j < i ==> seen@[j] != *v,
                decreases seen@.len() - i,
            {
                if seen[i] == *v {
                    proof {
                        assert forall|s: Seq<usize>|
                            seen@.is_prefix_of(s) && s.no_duplicates() implies Ty::Gen(i)
                            == #[trigger] renamed(*t, swap_keys(s)) by {
                            assert(s.subrange(0, seen@.len() as int)[i as int] == s[i as int]);
                            assert(s[i as int] == *v);
                            assert(s.contains(*v));
                        }
                    }
                    return Ty::Gen(i);
                }
                i = i + 1;
            }
            let g = seen.len();
            let ghost before = seen@;
            seen.push(*v);
            proof {
                assert(before.is_prefix_of(seen@)) by {
                    assert(seen@.subrange(0, before.len() as int) =~= before);
                }
                assert forall|x: int, y: int|
                    0 <= x < seen@.len() && 0 <= y < seen@.len() && x != y implies seen@[x]
                    != seen@[y] by {}
                assert forall|s: Seq<usize>|
                    seen@.is_prefix_of(s) && s.no_duplicates() implies Ty::Gen(g) == #[trigger] renamed(
                    *t,
                    swap_keys(s),
                ) by {
                    assert(seen@[g as int] == *v);
                    assert(s.subrange(0, seen@.len() as int)[g as int] == s[g as int]);
                    assert(s[g as int] == *v);
                    assert(s.contains(*v));
                }
            }
            Ty::Gen(g)
        },
        Ty::App(f, a) => {
            let ghost s0 = seen@;
            let f2 = generalize_resolved(f, seen);
            let ghost s1 = seen@;
            let a2 = generalize_resolved(a, seen);
            proof {
                assert(s0.is_prefix_of(seen@)) by {
                    assert(seen@.subrange(0, s0.len() as int) =~= s1.subrange(0, s0.len() as int));
                }
                assert forall|s: Seq<usize>|
                    no_gens(*t) && seen@.is_prefix_of(s) && s.no_duplicates() implies Ty::App(
                    Box::new(f2),
                    Box::new(a2),
                ) == #[trigger] renamed(*t, swap_keys(s)) by {
                    assert(s1.is_prefix_of(s)) by {
                        assert(s.subrange(0, s1.len() as int) =~= seen@.subrange(
                            0,
                            s1.len() as int,
                        ));
                    }
                    assert(f2 == renamed(**f, swap_keys(s)));
                    assert(a2 == renamed(**a, swap_keys(s)));
                }
            }
            Ty::App(Box::new(f2), Box::new(a2))
        },
        Ty::Gen(g) => Ty::Gen(*g),
        Ty::Con(c) => Ty::Con(*c),
        Ty::FnCon(n) => Ty::FnCon(*n),
        Ty::TupleCon(n) => Ty::TupleCon(*n),
    }
}

/// Generalising a type that has no quantified variable does not change how
/// it prints.
pub proof fn lemma_generalized_prints_alike(
    tab: Seq<Vec<char>>,
    t: Ty,
    seen: Seq<usize>,
    r: Ty,
)
    requires
        seen.no_duplicates(),
        seen.len() <= usize::MAX,
        no_gens(t),
        r == renamed(t, swap_keys(seen)),
    ensures
        type_text(tab, r) == type_text(tab, t),
{
    lemma_swap_injective(seen);
    lemma_type_text_renamed(tab, t, swap_keys(seen));
}

/// `t` with each quantified variable `Gen(g)` replaced by `f(g)`.
pub open spec fn gens_by(t: Ty, f: spec_fn(usize) -> Ty) -> Ty
    decreases t,
{
    match t {
        Ty::Gen(g) => f(g),
        Ty::App(a, b) => Ty::App(Box::new(gens_by(*a, f)), Box::new(gens_by(*b, f))),
        _ => t,
    }
}

/// The quantified variable `g` occurs in `t`.
pub open spec fn has_gen(t: Ty, g: usize) -> bool
    decreases t,
{
    match t {
        Ty::Gen(h) => h == g,
        Ty::App(a, b) => has_gen(*a, g) || has_gen(*b, g),
        _ => false,
    }
}

/// The variable the first entry for `g` of an instantiation map gives.
pub open spec fn lookup_gen(m: Seq<(usize, usize)>, g: usize) -> Option<usize>
    decreases m.len(),
{
    if m.len() == 0 {
        None
    } else if m[0].0 == g {
        Some(m[0].1)
    } else {
        lookup_gen(m.drop_first(), g)
    }
}

/// What an instantiation map makes of the quantified variable `g`.
pub open spec fn inst_of(m: Seq<(usize, usize)>, g: usize) -> Ty {
    match lookup_gen(m, g) {
        Some(v) => Ty::Var(v),
        None => Ty::Gen(g),
    }
}

/// Replacing the quantified variables depends only on those that occur.
pub proof fn lemma_gens_by_agree(t: Ty, f1: spec_fn(usize) -> Ty, f2: spec_fn(usize) -> Ty)
    requires
        forall|g: usize| #[trigger] has_gen(t, g) ==> f1(g) == f2(g),
    ensures
        gens_by(t, f1) == gens_by(t, f2),
    decreases t,
{
    match t {
        Ty::App(a, b) => {
            assert forall|g: usize| #[trigger] has_gen(*a, g) implies f1(g) == f2(g) by {
                assert(has_gen(t, g));
            }
            assert forall|g: usize| #[trigger] has_gen(*b, g) implies f1(g) == f2(g) by {
                assert(has_gen(t, g));
            }
            lemma_gens_by_agree(*a, f1, f2);
            lemma_gens_by_agree(*b, f1, f2);
        },
        Ty::Gen(g) => {
            assert(has_gen(t, g));
        },
        _ => {},
    }
}

/// The first entry for `g` is the one at `i` when none before it has `g`.
proof fn lemma_lookup_at(m: Seq<(usize, usize)>, g: usize, i: int)
    requires
        0 <= i <= m.len(),
        forall|j: int| 0 <= j < i ==> (#[trigger] m[j]).0 != g,
    ensures
        i < m.len() && m[i].0 == g ==> lookup_gen(m, g) == Some(m[i].1),
        i == m.len() ==> lookup_gen(m, g) is None,
    decreases i,
{
    if i > 0 {
        assert forall|j: int| 0 <= j < i - 1 implies (#[trigger] m.drop_first()[j]).0 != g by {
            assert(m.drop_first()[j] == m[j + 1]);
        }
        lemma_lookup_at(m.drop_first(), g, i - 1);
        assert(m[0].0 != g);
        if i < m.len() {
            assert(m.drop_first()[i - 1] == m[i]);
        }
    } else if m.len() > 0 {
    }
}

/// Extending a map keeps what its entries already give.
proof fn lemma_lookup_extend(m1: Seq<(usize, usize)>, m2: Seq<(usize, usize)>, g: usize)
    requires
        m1.is_prefix_of(m2),
        lookup_gen(m1, g) is Some,
    ensures
        lookup_gen(m2, g) == lookup_gen(m1, g),
    decreases m1.len(),
{
    if m1[0].0 != g {
        assert(m1.drop_first().is_prefix_of(m2.drop_first())) by {
            assert(m1.drop_first() =~= m2.drop_first().subrange(0, m1.len() - 1));
        }
        lemma_lookup_extend(m1.drop_first(), m2.drop_first(), g);
    }
}

/// A map with an entry pushed gives what it gave, and the new entry's
/// variable for a key it did not have.
proof fn lemma_lookup_push(m: Seq<(usize, usize)>, e: (usize, usize), g: usize)
    ensures
        lookup_gen(m.push(e), g) == (if lookup_gen(m, g) is Some {
            lookup_gen(m, g)
        } else if e.0 == g {
            Some(e.1)
        } else {
            None
        }),
    decreases m.len(),
{
    if m.len() == 0 {
        assert(m.push(e)[0] == e);
        assert(m.push(e).drop_first() =~= Seq::<(usize, usize)>::empty());
        assert(lookup_gen(Seq::<(usize, usize)>::empty(), g) is None);
        assert(lookup_gen(m, g) is None);
    } else {
        assert(m.push(e)[0] == m[0]);
        assert(m.push(e).drop_first() =~= m.drop_first().push(e));
        lemma_lookup_push(m.drop_first(), e, g);
    }
}

/// Replaces each quantified variable by a new unification variable, the
/// same one for each occurrence of the same quantified variable: the result
/// is the scheme with each quantified variable replaced by what the final
/// map gives for it.
pub fn instantiate_with(t: &Ty, subst: &mut Subst, map: &mut Vec<(usize, usize)>) -> (r: Ty)
    requires
        old(subst).wf(),
    ensures
        final(subst).wf(),
        no_gens(r),
        crate::types::absorbs(final(subst).binds@, old(subst).binds@),
        old(map)@.is_prefix_of(final(map)@),
        forall|g: usize| #[trigger] has_gen(*t, g) ==> lookup_gen(final(map)@, g) is Some,
        r == gens_by(*t, |g: usize| inst_of(final(map)@, g)),
    decreases t,
{
    proof {
        crate::types::lemma_absorbs_refl(subst.binds@);
    }
    match t {
        Ty::Gen(g) => {
            let mut i: usize = 0;
            while i < map.len()
                invariant
                    i <= map@.len(),
                    map@ == old(map)@,
                    forall|j: int| 0 <= j < i ==> (#[trigger] map@[j]).0 != *g,
                decreases map@.len() - i,
            {
                let (k, v) = map[i];
                if k == *g {
                    proof {
                        lemma_lookup_at(map@, *g, i as int);
                    }
                    return Ty::Var(v);
                }
                i = i + 1;
            }
            let v = subst.fresh();
            proof {
                lemma_lookup_at(map@, *g, i as int);
                lemma_lookup_push(map@, (*g, v), *g);
            }
            map.push((*g, v));
            Ty::Var(v)
        },
        Ty::App(f, a) => {
            let ghost s0 = subst.binds@;
            let ghost m0 = map@;
            let f2 = instantiate_with(f, subst, map);
            let ghost s1 = subst.binds@;
            let ghost m1 = map@;
            let a2 = instantiate_with(a, subst, map);
            proof {
                crate::types::lemma_absorbs_trans(subst.binds@, s1, s0);
                let m2 = map@;
                assert forall|g: usize| #[trigger] has_gen(**f, g) implies inst_of(m1, g) == inst_of(
                    m2,
                    g,
                ) by {
                    lemma_lookup_extend(m1, m2, g);
                }
                lemma_gens_by_agree(**f, |g: usize| inst_of(m1, g), |g: usize| inst_of(m2, g));
                assert forall|g: usize| #[trigger] has_gen(*t, g) implies lookup_gen(m2, g) is Some by {
                    if has_gen(**f, g) {
                        lemma_lookup_extend(m1, m2, g);
                    } else {
                        assert(has_gen(**a, g));
                    }
                }
                assert(m0.is_prefix_of(m2)) by {
                    assert(m0 =~= m2.subrange(0, m0.len() as int)) by {
                        assert(m0 =~= m1.subrange(0, m0.len() as int));
                        assert(m1 =~= m2.subrange(0, m1.len() as int));
                    }
                }
            }
            Ty::App(Box::new(f2), Box::new(a2))
        },
        Ty::Var(v) => Ty::Var(*v),
        Ty::Con(c) => Ty::Con(*c),
        Ty::FnCon(n) => Ty::FnCon(*n),
        Ty::TupleCon(n) => Ty::TupleCon(*n),
    }
}

} // verus!
