use vstd::prelude::*;

verus! {

/// A type term. Applications are curried: `List(Int)` is
/// `App(Con(list), Con(int))`, a function type `fn(a, b) -> c` is
/// `App(App(App(FnCon(2), a), b), c)` and a tuple `#(a, b)` is
/// `App(App(TupleCon(2), a), b)`.
pub enum Ty {
    /// A unification variable, identified by its slot in the substitution.
    Var(usize),
    /// A quantified variable of a type scheme.
    Gen(usize),
    /// A named type constructor, identified by its slot in the type table.
    Con(usize),
    /// The function type constructor taking the given number of parameters
    /// (it is applied to the parameters and then to the return type).
    FnCon(usize),
    /// The tuple type constructor of the given size.
    TupleCon(usize),
    App(Box<Ty>, Box<Ty>),
}

/// Whether the variable `v` has a binding in `s`.
pub open spec fn is_bound(s: Seq<Option<Ty>>, v: usize) -> bool {
    (v as int) < s.len() && s[v as int] is Some
}

/// The term bound to `v` (meaningful when `is_bound(s, v)`).
pub open spec fn binding(s: Seq<Option<Ty>>, v: usize) -> Ty {
    s[v as int]->0
}

/// Replaces every bound variable of `t` by its binding, in one pass.
pub open spec fn apply(s: Seq<Option<Ty>>, t: Ty) -> Ty
    decreases t,
{
    match t {
        Ty::Var(v) => if is_bound(s, v) {
            binding(s, v)
        } else {
            t
        },
        Ty::App(f, a) => Ty::App(Box::new(apply(s, *f)), Box::new(apply(s, *a))),
        _ => t,
    }
}

/// No variable of `t` is bound in `s`.
pub open spec fn free_of_bound(s: Seq<Option<Ty>>, t: Ty) -> bool
    decreases t,
{
    match t {
        Ty::Var(v) => !is_bound(s, v),
        Ty::App(f, a) => free_of_bound(s, *f) && free_of_bound(s, *a),
        _ => true,
    }
}

/// The variable `v` occurs in `t`.
pub open spec fn occurs(v: usize, t: Ty) -> bool
    decreases t,
{
    match t {
        Ty::Var(w) => w == v,
        Ty::App(f, a) => occurs(v, *f) || occurs(v, *a),
        _ => false,
    }
}

/// `t` holds no unification variable.
pub open spec fn no_vars(t: Ty) -> bool
    decreases t,
{
    match t {
        Ty::Var(_) => false,
        Ty::App(f, a) => no_vars(*f) && no_vars(*a),
        _ => true,
    }
}

/// `t` holds no quantified variable.
pub open spec fn no_gens(t: Ty) -> bool
    decreases t,
{
    match t {
        Ty::Gen(_) => false,
        Ty::App(f, a) => no_gens(*f) && no_gens(*a),
        _ => true,
    }
}

/// `t` with every occurrence of the variable `v` replaced by `r`.
pub open spec fn replace_var(t: Ty, v: usize, r: Ty) -> Ty
    decreases t,
{
    match t {
        Ty::Var(w) => if w == v {
            r
        } else {
            t
        },
        Ty::App(f, a) => Ty::App(Box::new(replace_var(*f, v, r)), Box::new(replace_var(*a, v, r))),
        _ => t,
    }
}

/// A substitution is idempotent: no binding mentions a bound variable.
pub open spec fn subst_wf(s: Seq<Option<Ty>>) -> bool {
    forall|v: usize| #[trigger] is_bound(s, v) ==> free_of_bound(s, binding(s, v))
}

/// `s2` is at least as specific as `s1`: applying `s1` first changes nothing
/// once `s2` is applied.
pub open spec fn absorbs(s2: Seq<Option<Ty>>, s1: Seq<Option<Ty>>) -> bool {
    forall|t: Ty| #[trigger] apply(s2, apply(s1, t)) == apply(s2, t)
}

/// The substitution obtained from `s` by binding `v` to `r` and replacing
/// `v` by `r` in every existing binding.
pub open spec fn bind_result(s: Seq<Option<Ty>>, v: usize, r: Ty) -> Seq<Option<Ty>> {
    Seq::new(
        s.len(),
        |i: int|
            if i == v as int {
                Some(r)
            } else {
                match s[i] {
                    Some(x) => Some(replace_var(x, v, r)),
                    None => None,
                }
            },
    )
}

/// A term that is fully resolved under `s` is left unchanged by it.
pub proof fn lemma_apply_free(s: Seq<Option<Ty>>, t: Ty)
    requires
        free_of_bound(s, t),
    ensures
        apply(s, t) == t,
    decreases t,
{
    if let Ty::App(f, a) = t {
        lemma_apply_free(s, *f);
        lemma_apply_free(s, *a);
    }
}

/// Under an idempotent substitution, one application resolves a term fully.
pub proof fn lemma_apply_resolves(s: Seq<Option<Ty>>, t: Ty)
    requires
        subst_wf(s),
    ensures
        free_of_bound(s, apply(s, t)),
    decreases t,
{
    match t {
        Ty::Var(v) => {
            if is_bound(s, v) {
                assert(free_of_bound(s, binding(s, v)));
            }
        },
        Ty::App(f, a) => {
            lemma_apply_resolves(s, *f);
            lemma_apply_resolves(s, *a);
        },
        _ => {},
    }
}

/// Applying an idempotent substitution twice is applying it once.
pub proof fn lemma_apply_idempotent(s: Seq<Option<Ty>>, t: Ty)
    requires
        subst_wf(s),
    ensures
        apply(s, apply(s, t)) == apply(s, t),
{
    lemma_apply_resolves(s, t);
    lemma_apply_free(s, apply(s, t));
}

/// Every idempotent substitution absorbs itself.
pub proof fn lemma_absorbs_refl(s: Seq<Option<Ty>>)
    requires
        subst_wf(s),
    ensures
        absorbs(s, s),
{
    assert forall|t: Ty| #[trigger] apply(s, apply(s, t)) == apply(s, t) by {
        lemma_apply_idempotent(s, t);
    }
}

/// Absorption is transitive.
pub proof fn lemma_absorbs_trans(s3: Seq<Option<Ty>>, s2: Seq<Option<Ty>>, s1: Seq<Option<Ty>>)
    requires
        absorbs(s3, s2),
        absorbs(s2, s1),
    ensures
        absorbs(s3, s1),
{
    assert forall|t: Ty| #[trigger] apply(s3, apply(s1, t)) == apply(s3, t) by {
        assert(apply(s3, apply(s2, apply(s1, t))) == apply(s3, apply(s1, t)));
        assert(apply(s2, apply(s1, t)) == apply(s2, t));
        assert(apply(s3, apply(s2, t)) == apply(s3, t));
    }
}

/// An absorbing substitution keeps every equation the absorbed one solved.
pub proof fn lemma_absorbs_keeps_equal(s2: Seq<Option<Ty>>, s1: Seq<Option<Ty>>, a: Ty, b: Ty)
    requires
        absorbs(s2, s1),
        apply(s1, a) == apply(s1, b),
    ensures
        apply(s2, a) == apply(s2, b),
{
    assert(apply(s2, apply(s1, a)) == apply(s2, a));
    assert(apply(s2, apply(s1, b)) == apply(s2, b));
}

/// Extending a substitution with an unbound slot changes no application.
pub proof fn lemma_apply_push_none(s: Seq<Option<Ty>>, t: Ty)
    ensures
        apply(s.push(None), t) == apply(s, t),
    decreases t,
{
    if let Ty::App(f, a) = t {
        lemma_apply_push_none(s, *f);
        lemma_apply_push_none(s, *a);
    }
    if let Ty::Var(v) = t {
        if (v as int) < s.len() {
            assert(s.push(None)[v as int] == s[v as int]);
        }
    }
}

/// Extending a substitution with an unbound slot keeps it idempotent.
pub proof fn lemma_push_none_wf(s: Seq<Option<Ty>>)
    requires
        subst_wf(s),
    ensures
        subst_wf(s.push(None)),
        absorbs(s.push(None), s),
{
    let s2 = s.push(None);
    assert forall|v: usize| #[trigger] is_bound(s2, v) implies free_of_bound(s2, binding(s2, v)) by {
        assert(is_bound(s, v));
        assert(binding(s2, v) == binding(s, v));
        lemma_free_push_none(s, binding(s, v));
    }
    assert forall|t: Ty| #[trigger] apply(s2, apply(s, t)) == apply(s2, t) by {
        lemma_apply_push_none(s, apply(s, t));
        lemma_apply_push_none(s, t);
        lemma_apply_idempotent(s, t);
    }
}

proof fn lemma_free_push_none(s: Seq<Option<Ty>>, t: Ty)
    requires
        free_of_bound(s, t),
    ensures
        free_of_bound(s.push(None), t),
    decreases t,
{
    if let Ty::App(f, a) = t {
        lemma_free_push_none(s, *f);
        lemma_free_push_none(s, *a);
    }
    if let Ty::Var(v) = t {
        if (v as int) < s.len() {
            assert(s.push(None)[v as int] == s[v as int]);
        }
    }
}

proof fn lemma_bind_bound(s: Seq<Option<Ty>>, v: usize, r: Ty, w: usize)
    requires
        (v as int) < s.len(),
    ensures
        is_bound(bind_result(s, v, r), w) == (is_bound(s, w) || w == v),
{
}

/// After binding, a term free of the old bindings is the term with `v`
/// replaced.
proof fn lemma_bind_apply_free(s: Seq<Option<Ty>>, v: usize, r: Ty, x: Ty)
    requires
        (v as int) < s.len(),
        free_of_bound(s, x),
    ensures
        apply(bind_result(s, v, r), x) == replace_var(x, v, r),
    decreases x,
{
    let s2 = bind_result(s, v, r);
    match x {
        Ty::Var(w) => {
            lemma_bind_bound(s, v, r, w);
        },
        Ty::App(f, a) => {
            lemma_bind_apply_free(s, v, r, *f);
            lemma_bind_apply_free(s, v, r, *a);
        },
        _ => {},
    }
}

proof fn lemma_replace_free(s: Seq<Option<Ty>>, v: usize, r: Ty, x: Ty)
    requires
        (v as int) < s.len(),
        free_of_bound(s, x),
        free_of_bound(s, r),
        !occurs(v, r),
    ensures
        free_of_bound(bind_result(s, v, r), replace_var(x, v, r)),
    decreases x,
{
    match x {
        Ty::Var(w) => {
            lemma_bind_bound(s, v, r, w);
            if w == v {
                lemma_free_not_occurs(s, v, r);
            }
        },
        Ty::App(f, a) => {
            lemma_replace_free(s, v, r, *f);
            lemma_replace_free(s, v, r, *a);
        },
        _ => {},
    }
}

proof fn lemma_free_not_occurs(s: Seq<Option<Ty>>, v: usize, r: Ty)
    requires
        (v as int) < s.len(),
        free_of_bound(s, r),
        !occurs(v, r),
    ensures
        free_of_bound(bind_result(s, v, r), r),
    decreases r,
{
    match r {
        Ty::Var(w) => {
            lemma_bind_bound(s, v, r, w);
        },
        Ty::App(f, a) => {
            lemma_free_not_occurs_sub(s, v, r, *f);
            lemma_free_not_occurs_sub(s, v, r, *a);
        },
        _ => {},
    }
}

proof fn lemma_free_not_occurs_sub(s: Seq<Option<Ty>>, v: usize, r: Ty, x: Ty)
    requires
        (v as int) < s.len(),
        free_of_bound(s, x),
        !occurs(v, x),
    ensures
        free_of_bound(bind_result(s, v, r), x),
    decreases x,
{
    match x {
        Ty::Var(w) => {
            lemma_bind_bound(s, v, r, w);
        },
        Ty::App(f, a) => {
            lemma_free_not_occurs_sub(s, v, r, *f);
            lemma_free_not_occurs_sub(s, v, r, *a);
        },
        _ => {},
    }
}

/// Binding a fresh solution keeps the substitution idempotent and absorbs
/// the old one.
pub proof fn lemma_bind_sound(s: Seq<Option<Ty>>, v: usize, r: Ty)
    requires
        subst_wf(s),
        (v as int) < s.len(),
        !is_bound(s, v),
        free_of_bound(s, r),
        !occurs(v, r),
    ensures
        subst_wf(bind_result(s, v, r)),
        absorbs(bind_result(s, v, r), s),
        apply(bind_result(s, v, r), Ty::Var(v)) == r,
{
    let s2 = bind_result(s, v, r);
    assert forall|w: usize| #[trigger] is_bound(s2, w) implies free_of_bound(s2, binding(s2, w)) by {
        lemma_bind_bound(s, v, r, w);
        if w == v {
            lemma_free_not_occurs(s, v, r);
        } else {
            assert(is_bound(s, w));
            lemma_replace_free(s, v, r, binding(s, w));
        }
    }
    assert forall|t: Ty| #[trigger] apply(s2, apply(s, t)) == apply(s2, t) by {
        lemma_bind_absorbs_term(s, v, r, t);
    }
    lemma_bind_bound(s, v, r, v);
}

proof fn lemma_bind_absorbs_term(s: Seq<Option<Ty>>, v: usize, r: Ty, t: Ty)
    requires
        subst_wf(s),
        (v as int) < s.len(),
        !is_bound(s, v),
    ensures
        apply(bind_result(s, v, r), apply(s, t)) == apply(bind_result(s, v, r), t),
    decreases t,
{
    let s2 = bind_result(s, v, r);
    match t {
        Ty::Var(w) => {
            lemma_bind_bound(s, v, r, w);
            if is_bound(s, w) {
                assert(free_of_bound(s, binding(s, w)));
                lemma_bind_apply_free(s, v, r, binding(s, w));
            }
        },
        Ty::App(f, a) => {
            lemma_bind_absorbs_term(s, v, r, *f);
            lemma_bind_absorbs_term(s, v, r, *a);
        },
        _ => {},
    }
}

/// Refining is transitive.
pub broadcast proof fn lemma_absorbs_chain(
    s3: Seq<Option<Ty>>,
    s2: Seq<Option<Ty>>,
    s1: Seq<Option<Ty>>,
)
    requires
        #[trigger] absorbs(s3, s2),
        #[trigger] absorbs(s2, s1),
    ensures
        absorbs(s3, s1),
{
    lemma_absorbs_trans(s3, s2, s1);
}

/// An idempotent substitution refines itself.
pub broadcast proof fn lemma_absorbs_self(s: Seq<Option<Ty>>)
    requires
        subst_wf(s),
    ensures
        #[trigger] absorbs(s, s),
{
    lemma_absorbs_refl(s);
}

/// `s` makes `a` and `b` equal.
pub open spec fn unifies(s: Seq<Option<Ty>>, a: Ty, b: Ty) -> bool {
    apply(s, a) == apply(s, b)
}

/// Every substitution that refines `s0` and makes `a` and `b` equal also
/// refines `s`: `s` is a most general way to make them equal.
pub open spec fn most_general(s: Seq<Option<Ty>>, s0: Seq<Option<Ty>>, a: Ty, b: Ty) -> bool {
    forall|s2: Seq<Option<Ty>>| #![trigger absorbs(s2, s)]
        absorbs(s2, s0) && unifies(s2, a, b) ==> absorbs(s2, s)
}

/// No substitution that refines `s0` makes `a` and `b` equal.
pub open spec fn no_unifier(s0: Seq<Option<Ty>>, a: Ty, b: Ty) -> bool {
    forall|s2: Seq<Option<Ty>>| #[trigger] absorbs(s2, s0) ==> !unifies(s2, a, b)
}

/// The number of nodes of a term.
pub open spec fn size(t: Ty) -> nat
    decreases t,
{
    match t {
        Ty::App(f, a) => 1 + size(*f) + size(*a),
        _ => 1,
    }
}

/// A refinement of `s0` makes two terms equal exactly when it makes their
/// resolved forms equal.
proof fn lemma_unifies_resolved(s2: Seq<Option<Ty>>, s0: Seq<Option<Ty>>, a: Ty, b: Ty)
    requires
        absorbs(s2, s0),
    ensures
        unifies(s2, a, b) == unifies(s2, apply(s0, a), apply(s0, b)),
{
    assert(apply(s2, apply(s0, a)) == apply(s2, a));
    assert(apply(s2, apply(s0, b)) == apply(s2, b));
}

/// Replacing a variable by a term that `s2` equates with it changes nothing
/// once `s2` is applied.
proof fn lemma_apply_replace(s2: Seq<Option<Ty>>, x: usize, r: Ty, u: Ty)
    requires
        apply(s2, Ty::Var(x)) == apply(s2, r),
    ensures
        apply(s2, replace_var(u, x, r)) == apply(s2, u),
    decreases u,
{
    if let Ty::App(f, a) = u {
        lemma_apply_replace(s2, x, r, *f);
        lemma_apply_replace(s2, x, r, *a);
    }
}

/// Binding `x` to `r` is the most general way to make them equal.
proof fn lemma_bind_most_general(s0: Seq<Option<Ty>>, x: usize, r: Ty, s2: Seq<Option<Ty>>)
    requires
        subst_wf(s0),
        (x as int) < s0.len(),
        !is_bound(s0, x),
        free_of_bound(s0, r),
        !occurs(x, r),
        absorbs(s2, s0),
        apply(s2, Ty::Var(x)) == apply(s2, r),
    ensures
        absorbs(s2, bind_result(s0, x, r)),
{
    let s1 = bind_result(s0, x, r);
    lemma_bind_sound(s0, x, r);
    assert forall|t: Ty| #[trigger] apply(s2, apply(s1, t)) == apply(s2, t) by {
        let u = apply(s0, t);
        lemma_apply_resolves(s0, t);
        lemma_bind_apply_free(s0, x, r, u);
        assert(apply(s1, u) == apply(s1, t));
        lemma_apply_replace(s2, x, r, u);
        assert(apply(s2, u) == apply(s2, t));
    }
}

/// A variable never equals a term in which it occurs strictly inside.
proof fn lemma_occurs_size(s2: Seq<Option<Ty>>, x: usize, t: Ty)
    requires
        occurs(x, t),
    ensures
        size(apply(s2, t)) >= size(apply(s2, Ty::Var(x))),
        t != Ty::Var(x) ==> size(apply(s2, t)) > size(apply(s2, Ty::Var(x))),
    decreases t,
{
    if let Ty::App(f, a) = t {
        if occurs(x, *f) {
            lemma_occurs_size(s2, x, *f);
        } else {
            lemma_occurs_size(s2, x, *a);
        }
    }
}

/// When the resolved terms are already equal, the substitution itself is a
/// most general unifier.
proof fn lemma_refines_itself(s0: Seq<Option<Ty>>, a: Ty, b: Ty)
    requires
        subst_wf(s0),
        apply(s0, a) == apply(s0, b),
    ensures
        most_general(s0, s0, a, b),
        apply(s0, a) == apply(s0, b),
{
}

/// Unifying is symmetric in its two terms.
proof fn lemma_unify_symmetric(s: Seq<Option<Ty>>, s0: Seq<Option<Ty>>, a: Ty, b: Ty)
    ensures
        most_general(s, s0, b, a) ==> most_general(s, s0, a, b),
        no_unifier(s0, b, a) ==> no_unifier(s0, a, b),
{
}

/// Whether two resolved terms that are not both applications and not
/// variables are the same leaf.
fn same_constructor(a: &Ty, b: &Ty) -> (r: bool)
    ensures
        r == (*a == *b && !(*a is App) && !(*a is Var)),
{
    match (a, b) {
        (Ty::Gen(x), Ty::Gen(y)) => *x == *y,
        (Ty::Con(x), Ty::Con(y)) => *x == *y,
        (Ty::FnCon(x), Ty::FnCon(y)) => *x == *y,
        (Ty::TupleCon(x), Ty::TupleCon(y)) => *x == *y,
        _ => false,
    }
}

/// A structural copy of a term.
pub fn copy_ty(t: &Ty) -> (r: Ty)
    ensures
        r == *t,
    decreases t,
{
    match t {
        Ty::Var(v) => Ty::Var(*v),
        Ty::Gen(g) => Ty::Gen(*g),
        Ty::Con(c) => Ty::Con(*c),
        Ty::FnCon(n) => Ty::FnCon(*n),
        Ty::TupleCon(n) => Ty::TupleCon(*n),
        Ty::App(f, a) => Ty::App(Box::new(copy_ty(f)), Box::new(copy_ty(a))),
    }
}

/// Structural equality of two terms.
pub fn ty_equal(a: &Ty, b: &Ty) -> (r: bool)
    ensures
        r == (*a == *b),
    decreases a,
{
    match (a, b) {
        (Ty::Var(x), Ty::Var(y)) => *x == *y,
        (Ty::Gen(x), Ty::Gen(y)) => *x == *y,
        (Ty::Con(x), Ty::Con(y)) => *x == *y,
        (Ty::FnCon(x), Ty::FnCon(y)) => *x == *y,
        (Ty::TupleCon(x), Ty::TupleCon(y)) => *x == *y,
        (Ty::App(f1, a1), Ty::App(f2, a2)) => ty_equal(f1, f2) && ty_equal(a1, a2),
        _ => false,
    }
}

/// Whether the variable `v` occurs in `t`.
pub fn occurs_in(v: usize, t: &Ty) -> (r: bool)
    ensures
        r == occurs(v, *t),
    decreases t,
{
    match t {
        Ty::Var(w) => *w == v,
        Ty::App(f, a) => occurs_in(v, f) || occurs_in(v, a),
        _ => false,
    }
}

/// `t` with the variable `v` replaced by `r`.
pub fn replace_var_exec(t: &Ty, v: usize, r: &Ty) -> (res: Ty)
    ensures
        res == replace_var(*t, v, *r),
    decreases t,
{
    match t {
        Ty::Var(w) => if *w == v {
            copy_ty(r)
        } else {
            Ty::Var(*w)
        },
        Ty::App(f, a) => Ty::App(
            Box::new(replace_var_exec(f, v, r)),
            Box::new(replace_var_exec(a, v, r)),
        ),
        _ => copy_ty(t),
    }
}

/// Why two terms could not be unified.
pub enum UnifyError {
    /// The terms have different shapes or constructors.
    Mismatch,
    /// Solving would build an infinite term.
    Recursive,
    /// The terms are nested deeper than the search allows.
    TooDeep,
    /// A variable lies outside the substitution.
    UnknownVariable,
}

/// An idempotent substitution over unification variables.
pub struct Subst {
    pub binds: Vec<Option<Ty>>,
}

impl Subst {
    pub open spec fn wf(&self) -> bool {
        subst_wf(self.binds@)
    }

    /// The empty substitution.
    pub fn new() -> (s: Subst)
        ensures
            s.binds@ == Seq::<Option<Ty>>::empty(),
            s.wf(),
    {
        Subst { binds: Vec::new() }
    }

    /// A new unbound variable.
    pub fn fresh(&mut self) -> (v: usize)
        requires
            old(self).wf(),
        ensures
            final(self).binds@ == old(self).binds@.push(None),
            v as int == old(self).binds@.len(),
            final(self).wf(),
            absorbs(final(self).binds@, old(self).binds@),
            forall|t: Ty| #[trigger] apply(final(self).binds@, t) == apply(old(self).binds@, t),
    {
        let v = self.binds.len();
        proof {
            lemma_push_none_wf(self.binds@);
            assert forall|t: Ty| #[trigger] apply(self.binds@.push(None), t) == apply(self.binds@, t) by {
                lemma_apply_push_none(self.binds@, t);
            }
        }
        self.binds.push(None);
        v
    }

    /// The term with all bound variables replaced by their bindings.
    pub fn resolve(&self, t: &Ty) -> (r: Ty)
        ensures
            r == apply(self.binds@, *t),
        decreases t,
    {
        match t {
            Ty::Var(v) => {
                if *v < self.binds.len() {
                    match &self.binds[*v] {
                        Some(x) => copy_ty(x),
                        None => Ty::Var(*v),
                    }
                } else {
                    Ty::Var(*v)
                }
            },
            Ty::App(f, a) => Ty::App(Box::new(self.resolve(f)), Box::new(self.resolve(a))),
            _ => copy_ty(t),
        }
    }

    /// Binds the unbound variable `v` to the resolved term `r`.
    fn bind(&mut self, v: usize, r: Ty)
        requires
            old(self).wf(),
            (v as int) < old(self).binds@.len(),
            !is_bound(old(self).binds@, v),
            free_of_bound(old(self).binds@, r),
            !occurs(v, r),
        ensures
            final(self).binds@ == bind_result(old(self).binds@, v, r),
            final(self).wf(),
            absorbs(final(self).binds@, old(self).binds@),
    {
        let ghost s0 = self.binds@;
        let n = self.binds.len();
        let mut i: usize = 0;
        while i < n
            invariant
                n == s0.len(),
                self.binds@.len() == n,
                i <= n,
                (v as int) < n,
                forall|j: int|
                    0 <= j < i ==> #[trigger] self.binds@[j] == match s0[j] {
                        Some(x) => Some(replace_var(x, v, r)),
                        None => None::<Ty>,
                    },
                forall|j: int| i <= j < n ==> #[trigger] self.binds@[j] == s0[j],
            decreases n - i,
        {
            let updated = match &self.binds[i] {
                Some(x) => Some(replace_var_exec(x, v, &r)),
                None => None,
            };
            self.binds.set(i, updated);
            i = i + 1;
        }
        self.binds.set(v, Some(r));
        proof {
            assert(self.binds@ =~= bind_result(s0, v, r));
            lemma_bind_sound(s0, v, r);
        }
    }

    /// Makes `a` and `b` equal by extending the substitution.
    pub fn unify(&mut self, a: &Ty, b: &Ty, fuel: usize) -> (res: Result<(), UnifyError>)
        requires
            old(self).wf(),
        ensures
            final(self).wf(),
            final(self).binds@.len() == old(self).binds@.len(),
            absorbs(final(self).binds@, old(self).binds@),
            res is Ok ==> apply(final(self).binds@, *a) == apply(final(self).binds@, *b),
            res is Ok ==> most_general(final(self).binds@, old(self).binds@, *a, *b),
            res matches Err(e) && (e is Mismatch || e is Recursive) ==> no_unifier(
                old(self).binds@,
                *a,
                *b,
            ),
            fuel > 0 && apply(old(self).binds@, *a) == apply(old(self).binds@, *b) && apply(
                old(self).binds@,
                *a,
            ) is Con ==> res is Ok,
        decreases fuel,
    {
        let ghost s0 = self.binds@;
        let ra = self.resolve(a);
        let rb = self.resolve(b);
        proof {
            lemma_apply_resolves(s0, *a);
            lemma_apply_resolves(s0, *b);
            lemma_absorbs_refl(s0);
        }
        if fuel == 0 {
            return Err(UnifyError::TooDeep);
        }
        match (&ra, &rb) {
            (Ty::Var(x), Ty::Var(y)) => {
                if *x == *y {
                    proof {
                        lemma_refines_itself(s0, *a, *b);
                    }
                    return Ok(());
                }
            },
            _ => {},
        }
        if let Ty::Var(x) = &ra {
            return self.bind_checked(*x, rb, a, b);
        }
        if let Ty::Var(y) = &rb {
            let r = self.bind_checked(*y, ra, b, a);
            proof {
                lemma_unify_symmetric(self.binds@, s0, *a, *b);
            }
            return r;
        }
        match (&ra, &rb) {
            (Ty::App(f1, x1), Ty::App(f2, x2)) => {
                let r1 = self.unify(f1, f2, fuel - 1);
                let ghost s1 = self.binds@;
                if r1.is_err() {
                    proof {
                        if no_unifier(s0, **f1, **f2) {
                            assert forall|s2: Seq<Option<Ty>>| #[trigger] absorbs(s2, s0) implies !unifies(
                                s2,
                                *a,
                                *b,
                            ) by {
                                lemma_unifies_resolved(s2, s0, *a, *b);
                            }
                        }
                    }
                    return r1;
                }
                let r2 = self.unify(x1, x2, fuel - 1);
                let ghost s2 = self.binds@;
                proof {
                    lemma_absorbs_trans(s2, s1, s0);
                    lemma_absorbs_keeps_equal(s2, s1, **f1, **f2);
                    assert(apply(s2, apply(s0, *a)) == apply(s2, *a));
                    assert(apply(s2, apply(s0, *b)) == apply(s2, *b));
                    if r2 is Ok {
                        assert forall|s3: Seq<Option<Ty>>|
                            absorbs(s3, s0) && unifies(s3, *a, *b) implies #[trigger] absorbs(
                            s3,
                            s2,
                        ) by {
                            lemma_unifies_resolved(s3, s0, *a, *b);
                            assert(unifies(s3, **f1, **f2));
                            assert(absorbs(s3, s1));
                            assert(unifies(s3, **x1, **x2));
                        }
                    }
                    if no_unifier(s1, **x1, **x2) {
                        assert forall|s3: Seq<Option<Ty>>| #[trigger] absorbs(s3, s0) implies !unifies(
                            s3,
                            *a,
                            *b,
                        ) by {
                            lemma_unifies_resolved(s3, s0, *a, *b);
                            if unifies(s3, *a, *b) {
                                assert(unifies(s3, **f1, **f2));
                                assert(absorbs(s3, s1));
                                assert(unifies(s3, **x1, **x2));
                            }
                        }
                    }
                }
                r2
            },
            _ => {
                if same_constructor(&ra, &rb) {
                    proof {
                        lemma_refines_itself(s0, *a, *b);
                    }
                    Ok(())
                } else {
                    proof {
                        assert forall|s2: Seq<Option<Ty>>| #[trigger] absorbs(s2, s0) implies !unifies(
                            s2,
                            *a,
                            *b,
                        ) by {
                            lemma_unifies_resolved(s2, s0, *a, *b);
                        }
                    }
                    Err(UnifyError::Mismatch)
                }
            },
        }
    }

    /// Binds the resolved variable `x` (standing for `a`) to the resolved
    /// term `r` (standing for `b`), after the occurs check.
    fn bind_checked(&mut self, x: usize, r: Ty, a: &Ty, b: &Ty) -> (res: Result<(), UnifyError>)
        requires
            old(self).wf(),
            apply(old(self).binds@, *a) == Ty::Var(x),
            apply(old(self).binds@, *b) == r,
            free_of_bound(old(self).binds@, Ty::Var(x)),
            free_of_bound(old(self).binds@, r),
            r != Ty::Var(x),
        ensures
            final(self).wf(),
            final(self).binds@.len() == old(self).binds@.len(),
            absorbs(final(self).binds@, old(self).binds@),
            res is Ok ==> apply(final(self).binds@, *a) == apply(final(self).binds@, *b),
            res is Ok ==> most_general(final(self).binds@, old(self).binds@, *a, *b),
            res matches Err(e) && (e is Mismatch || e is Recursive) ==> no_unifier(
                old(self).binds@,
                *a,
                *b,
            ),
    {
        let ghost s0 = self.binds@;
        proof {
            lemma_absorbs_refl(s0);
        }
        if x >= self.binds.len() {
            return Err(UnifyError::UnknownVariable);
        }
        if occurs_in(x, &r) {
            proof {
                assert forall|s2: Seq<Option<Ty>>| #[trigger] absorbs(s2, s0) implies !unifies(
                    s2,
                    *a,
                    *b,
                ) by {
                    lemma_unifies_resolved(s2, s0, *a, *b);
                    lemma_occurs_size(s2, x, r);
                }
            }
            return Err(UnifyError::Recursive);
        }
        let ghost rr = r;
        self.bind(x, r);
        proof {
            let s2 = self.binds@;
            lemma_bind_sound(s0, x, rr);
            assert(apply(s2, apply(s0, *a)) == apply(s2, *a));
            assert(apply(s2, apply(s0, *b)) == apply(s2, *b));
            lemma_apply_free(s0, rr);
            lemma_free_not_occurs(s0, x, rr);
            lemma_apply_free(s2, rr);
            assert forall|s3: Seq<Option<Ty>>|
                absorbs(s3, s0) && unifies(s3, *a, *b) implies #[trigger] absorbs(s3, s2) by {
                lemma_unifies_resolved(s3, s0, *a, *b);
                lemma_bind_most_general(s0, x, rr, s3);
            }
        }
        Ok(())
    }
}

} // verus!
