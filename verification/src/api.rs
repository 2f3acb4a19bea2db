use vstd::prelude::*;
use itertools::Itertools;
use crate::ast::{Definition, Stmt};
use crate::env::{chars_of, entries_closed, ModuleInterface, TypeEntry, ValueInfo};
use crate::error::{describe_error, description, TypeError};
use crate::infer::Checker;
use crate::lexer::{lex, str_chars, word_is};
use crate::module::{internal_module, Target, TargetSupport};
use crate::parser::{parse_depth, parse_module, parse_statement_sequence};
use crate::print::{print_type, type_text};
use crate::types::{apply, lemma_apply_idempotent, subst_wf, Ty};
use crate::typing::{bindings, lemma_sound_stmts_respects, sound_stmts};

verus! {

#[verifier::external_type_specification]
#[verifier::external_body]
#[verifier::reject_recursive_types(I)]
pub struct ExVec1<I>(vec1::Vec1<I>);

#[verifier::external_type_specification]
#[verifier::external_body]
pub struct ExSize0Error(vec1::Size0Error);

/// The errors a `Vec1` of errors holds, in order.
pub uninterp spec fn vec1_items(v: vec1::Vec1<TypeError>) -> Seq<TypeError>;

/// `Vec1::try_from_vec`: fails exactly on an empty vector; otherwise the
/// `Vec1` holds the same errors in the same order.
#[verifier::external_body]
fn nonempty_errors(es: Vec<TypeError>) -> (r: Result<vec1::Vec1<TypeError>, vec1::Size0Error>)
    ensures
        r is Ok <==> es@.len() > 0,
        r matches Ok(v) ==> vec1_items(v) == es@,
{
    vec1::Vec1::try_from_vec(es)
}

/// `Vec1::as_vec`: the underlying vector, with the errors in order.
#[verifier::external_body]
fn errors_of(v: &vec1::Vec1<TypeError>) -> (r: &Vec<TypeError>)
    ensures
        r@ == vec1_items(*v),
{
    v.as_vec()
}

/// `String::from_iter` over characters: the string of exactly these
/// characters, in order.
#[verifier::external_body]
fn string_of(chars: &Vec<char>) -> (s: String)
    ensures
        s@ == chars@,
{
    String::from_iter(chars.iter())
}

/// Lexicographic order of character sequences, by code point, a proper
/// prefix first.
pub open spec fn chars_le(a: Seq<char>, b: Seq<char>) -> bool
    decreases a.len(),
{
    if a.len() == 0 {
        true
    } else if b.len() == 0 {
        false
    } else if a[0] != b[0] {
        (a[0] as u32) < (b[0] as u32)
    } else {
        chars_le(a.drop_first(), b.drop_first())
    }
}

/// Order of (name, type) pairs: by name, then by type.
pub open spec fn pair_le(p: (String, String), q: (String, String)) -> bool {
    if p.0@ == q.0@ {
        chars_le(p.1@, q.1@)
    } else {
        chars_le(p.0@, q.0@)
    }
}

/// `Itertools::sorted` on the pairs, collected: the same pairs in
/// ascending order.
#[verifier::external_body]
fn sorted_pairs(v: Vec<(String, String)>) -> (r: Vec<(String, String)>)
    ensures
        r@.to_multiset() == v@.to_multiset(),
        forall|i: int, j: int| 0 <= i < j < r@.len() ==> pair_le(#[trigger] r@[i], #[trigger] r@[j]),
{
    v.into_iter().sorted().collect()
}

/// A module loaded as a dependency: its package, its name and its source.
pub type DependencyModule<'a> = (&'a str, &'a str, &'a str);

/// A checked module: what it exports, and the names of all the types
/// known while checking it (to print its types).
pub struct TypedModule {
    pub name: Vec<char>,
    pub type_info: ModuleInterface,
    pub type_names: Vec<Vec<char>>,
}

/// The position of the last entry named `name`, the one that later
/// definitions leave in force.
pub open spec fn last_named(types: Seq<TypeEntry>, name: Seq<char>) -> Option<int>
    decreases types.len(),
{
    if types.len() == 0 {
        None
    } else if types.last().name@ == name {
        Some(types.len() - 1)
    } else {
        last_named(types.drop_last(), name)
    }
}

impl ModuleInterface {
    /// The type the module exports under this name, if it is not private.
    pub fn get_public_type(&self, name: &str) -> (r: Option<&TypeEntry>)
        ensures
            r is Some <==> (last_named(self.types@, name@) matches Some(i)
                && self.types@[i].publicity.importable()),
            r matches Some(e) ==> last_named(self.types@, name@) matches Some(i) && *e
                == self.types@[i],
    {
        let n = str_chars(name);
        let mut i = self.types.len();
        assert(self.types@.take(i as int) =~= self.types@);
        while i > 0
            invariant
                i <= self.types@.len(),
                n@ == name@,
                last_named(self.types@, name@) == last_named(self.types@.take(i as int), name@),
            decreases i,
        {
            assert(self.types@.take(i as int).drop_last() =~= self.types@.take(i - 1));
            i = i - 1;
            let e = &self.types[i];
            if crate::lexer::same_name(&e.name, &n) {
                if e.publicity.is_importable() {
                    return Some(e);
                }
                return None;
            }
        }
        None
    }
}

/// The definitions of a module's source text.
pub fn parse_source_module(src: &str) -> (r: Result<Vec<Definition>, TypeError>)
    ensures
        r matches Err(e) ==> e is Syntax,
{
    let chars = str_chars(src);
    let toks = match lex(&chars) {
        Ok(t) => t,
        Err(p) => {
            return Err(TypeError::Syntax(p));
        },
    };
    match parse_module(&toks) {
        Ok(d) => Ok(d),
        Err(p) => Err(TypeError::Syntax(p)),
    }
}

/// The statements of a source text made of statements alone.
pub fn parse_source_statements(src: &str) -> (r: Result<Vec<Stmt>, TypeError>)
    ensures
        r matches Err(e) ==> e is Syntax,
{
    let chars = str_chars(src);
    let toks = match lex(&chars) {
        Ok(t) => t,
        Err(p) => {
            return Err(TypeError::Syntax(p));
        },
    };
    match parse_statement_sequence(&toks) {
        Ok(s) => Ok(s),
        Err(p) => Err(TypeError::Syntax(p)),
    }
}

fn single_error(e: TypeError) -> (r: Vec<TypeError>)
    ensures
        r@ == seq![e],
{
    let mut v: Vec<TypeError> = Vec::new();
    v.push(e);
    v
}

/// Checks parsed statements in a fresh module `themodule`: the type of the
/// last statement, resolved, or the error found; with the names of the types
/// that a type may mention. With no local variable in scope, and with the
/// prelude's names in scope, the statements have the type given under a
/// substitution that leaves it as it is, and under every refinement of it.
pub fn check_statements(stmts: &Vec<Stmt>) -> (r: (Vec<Vec<char>>, Result<Ty, TypeError>))
    ensures
        r.1 matches Ok(t) ==> exists|s: Seq<Option<Ty>>, env: crate::typing::Env|
            #![trigger sound_stmts(s, env, Seq::empty(), stmts@, t)]
            crate::infer::is_prelude_env(env) && subst_wf(s) && apply(s, t) == t && sound_stmts(
                s,
                env,
                Seq::empty(),
                stmts@,
                t,
            ),
        r.0@.len() == 9,
        forall|i: int| 0 <= i < 9 ==> (#[trigger] r.0@[i])@ == crate::infer::prelude_type_name(i),
{
    let mut checker = Checker::new(chars_of("themodule"));
    let ghost l0 = checker.locals@;
    let ghost env = checker.env();
    match checker.infer_stmts(stmts, parse_depth()) {
        Ok(t) => {
            let resolved = checker.subst.resolve(&t.ty);
            proof {
                let s = checker.subst.binds@;
                lemma_apply_idempotent(s, t.ty);
                assert(bindings(l0) =~= Seq::<(Seq<char>, Ty)>::empty());
                lemma_sound_stmts_respects(s, env, Seq::empty(), stmts@, t.ty, resolved);
                assert(sound_stmts(s, env, Seq::empty(), stmts@, resolved));
            }
            (checker.type_names, Ok(resolved))
        },
        Err(e) => (checker.type_names, Err(e)),
    }
}

/// The names of the prelude's named types, by slot.
pub open spec fn prelude_names(names: Seq<Vec<char>>) -> bool {
    names.len() == 9 && forall|i: int| 0 <= i < 9 ==> (#[trigger] names[i])@ == crate::infer::prelude_type_name(i)
}

/// Some statements have the type `t` with the prelude's names in scope
/// and no local variable, under a substitution that leaves `t` as it is
/// and under every refinement of it.
pub open spec fn typed_statements(t: Ty) -> bool {
    exists|stmts: Seq<Stmt>, s: Seq<Option<Ty>>, env: crate::typing::Env|
        #![trigger sound_stmts(s, env, Seq::empty(), stmts, t)]
        crate::infer::is_prelude_env(env) && subst_wf(s) && apply(s, t) == t && sound_stmts(
            s,
            env,
            Seq::empty(),
            stmts,
            t,
        )
}

/// Checks a statement sequence in a fresh module `themodule`: the type of
/// its last statement, resolved, with the names of the types it may mention;
/// or the errors found, which are never none, with those names.
pub fn compile_statement_sequence(src: &str) -> (r: Result<
    (Vec<Vec<char>>, Ty),
    (vec1::Vec1<TypeError>, Vec<Vec<char>>),
>)
    ensures
        r matches Err((es, _)) ==> vec1_items(es).len() == 1,
        r matches Ok((names, t)) ==> prelude_names(names@) && typed_statements(t),
        r matches Err((_, names)) ==> prelude_names(names@),
{
    let stmts = parse_source_statements(src);
    let mut names: Vec<Vec<char>> = Vec::new();
    let mut errors: Vec<TypeError> = Vec::new();
    let mut result: Option<Ty> = None;
    match stmts {
        Ok(stmts) => {
            let (n, checked) = check_statements(&stmts);
            names = n;
            match checked {
                Ok(t) => {
                    result = Some(t);
                },
                Err(e) => {
                    errors.push(e);
                },
            }
        },
        Err(e) => {
            names = Checker::new(chars_of("themodule")).type_names;
            errors.push(e);
        },
    }
    assert(errors@.len() == 0 <==> result is Some);
    match nonempty_errors(errors) {
        Ok(es) => Err((es, names)),
        Err(_) => {
            let t = result.unwrap();
            Ok((names, t))
        },
    }
}

/// The printed type of the last statement of a statement sequence, such as
/// `fn(a) -> a` for `fn(x) { x }`.
pub fn infer(src: &str) -> (r: Result<String, vec1::Vec1<TypeError>>)
    ensures
        r matches Err(es) ==> vec1_items(es).len() == 1,
        r matches Ok(text) ==> exists|names: Seq<Vec<char>>, t: Ty|
            #![trigger type_text(names, t)]
            text@ == type_text(names, t) && prelude_names(names) && typed_statements(t),
{
    match compile_statement_sequence(src) {
        Ok((names, t)) => {
            let text = print_type(&names, &t);
            Ok(string_of(&text))
        },
        Err((es, _)) => Err(es),
    }
}

/// The pairs of strings as owned strings, in the same order.
pub fn stringify_tuple_strs(module: Vec<(&str, &str)>) -> (r: Vec<(String, String)>)
    ensures
        r@.len() == module@.len(),
        forall|i: int|
            0 <= i < r@.len() ==> (#[trigger] r@[i]).0@ == module@[i].0@ && r@[i].1@
                == module@[i].1@,
{
    let mut r: Vec<(String, String)> = Vec::new();
    let mut i: usize = 0;
    while i < module.len()
        invariant
            i <= module@.len(),
            r@.len() == i,
            forall|k: int|
                0 <= k < i ==> (#[trigger] r@[k]).0@ == module@[k].0@ && r@[k].1@ == module@[k].1@,
        decreases module@.len() - i,
    {
        let (k, v) = module[i];
        r.push((String::from_str(k), String::from_str(v)));
        i = i + 1;
    }
    r
}

/// Checks a module of the package `thepackage` after its dependencies,
/// which are checked in order with the given target support; the module
/// itself always has its target support enforced. The types and values
/// that an internal module exports are never public, and the types of the
/// exported values are fully generalised: they hold no unification
/// variable.
pub fn compile_module_with_opts(
    module_name: &str,
    src: &str,
    dep: Vec<DependencyModule<'_>>,
    target: Target,
    target_support: TargetSupport,
) -> (r: Result<TypedModule, Vec<TypeError>>)
    ensures
        r matches Err(es) ==> es@.len() > 0,
        r matches Ok(m) ==> m.name@ == module_name@ && m.type_info.name@ == module_name@
            && m.type_info.package@ == "thepackage"@,
        r matches Ok(m) ==> distinct_names(m.type_info.values@),
        r matches Ok(m) ==> (internal_module("thepackage"@, module_name@) ==> forall|i: int|
            0 <= i < m.type_info.types@.len() ==> !(
            #[trigger] m.type_info.types@[i].publicity is Public)),
        r matches Ok(m) ==> (internal_module("thepackage"@, module_name@) ==> forall|i: int|
            0 <= i < m.type_info.values@.len() ==> !(
            #[trigger] m.type_info.values@[i].publicity is Public)),
        r matches Ok(m) ==> forall|i: int|
            0 <= i < m.type_info.values@.len() ==> crate::types::no_vars(
                #[trigger] m.type_info.values@[i].scheme,
            ),
{
    let mut checker = Checker::new(chars_of(module_name));
    let package = chars_of("thepackage");
    let mut i: usize = 0;
    while i < dep.len()
        invariant
            checker.wf(),
            i <= dep@.len(),
            forall|m: int|
                0 <= m < checker.modules@.len() ==> entries_closed(
                    #[trigger] checker.modules@[m].types@,
                ),
        decreases dep@.len() - i,
    {
        let (dep_package, dep_name, dep_src) = dep[i];
        checker.begin_module(chars_of(dep_name));
        let defs = match parse_source_module(dep_src) {
            Ok(d) => d,
            Err(e) => {
                return Err(single_error(e));
            },
        };
        let iface = checker.check_module(&chars_of(dep_package), &defs, &target, &target_support)?;
        let ghost before = checker.modules@;
        checker.modules.push(iface);
        assert forall|m: int| 0 <= m < checker.modules@.len() implies entries_closed(
            #[trigger] checker.modules@[m].types@,
        ) by {
            if m < before.len() {
                assert(checker.modules@[m] == before[m]);
            }
        }
        i = i + 1;
    }
    checker.begin_module(chars_of(module_name));
    assert(package@ == "thepackage"@);
    let defs = match parse_source_module(src) {
        Ok(d) => d,
        Err(e) => {
            return Err(single_error(e));
        },
    };
    let iface = checker.check_module(&package, &defs, &target, &TargetSupport::Enforced)?;
    Ok(TypedModule { name: chars_of(module_name), type_info: iface, type_names: checker.type_names })
}

/// Checks a module for Erlang, without enforcing target support in its
/// dependencies.
pub fn compile_module(module_name: &str, src: &str, dep: Vec<DependencyModule<'_>>) -> (r:
    Result<TypedModule, Vec<TypeError>>)
    ensures
        r matches Err(es) ==> es@.len() > 0,
        r matches Ok(m) ==> m.name@ == module_name@ && m.type_info.name@ == module_name@
            && m.type_info.package@ == "thepackage"@,
        r matches Ok(m) ==> distinct_names(m.type_info.values@),
        r matches Ok(m) ==> (internal_module("thepackage"@, module_name@) ==> forall|i: int|
            0 <= i < m.type_info.types@.len() ==> !(
            #[trigger] m.type_info.types@[i].publicity is Public)),
        r matches Ok(m) ==> (internal_module("thepackage"@, module_name@) ==> forall|i: int|
            0 <= i < m.type_info.values@.len() ==> !(
            #[trigger] m.type_info.values@[i].publicity is Public)),
        r matches Ok(m) ==> forall|i: int|
            0 <= i < m.type_info.values@.len() ==> crate::types::no_vars(
                #[trigger] m.type_info.values@[i].scheme,
            ),
{
    compile_module_with_opts(module_name, src, dep, Target::Erlang, TargetSupport::NotEnforced)
}

/// The importable values among `vs`, in order, with their types printed
/// with the type names `names`.
pub open spec fn exported_pairs(vs: Seq<ValueInfo>, names: Seq<Vec<char>>) -> Seq<
    (Seq<char>, Seq<char>),
>
    decreases vs.len(),
{
    if vs.len() == 0 {
        Seq::empty()
    } else {
        let prev = exported_pairs(vs.drop_last(), names);
        let v = vs.last();
        if v.publicity.importable() {
            prev.push((v.name@, type_text(names, v.scheme)))
        } else {
            prev
        }
    }
}

/// A pair of strings as a pair of character sequences.
pub open spec fn pair_view(p: (String, String)) -> (Seq<char>, Seq<char>) {
    (p.0@, p.1@)
}

/// Mapping both sides of a multiset equality keeps it.
proof fn lemma_multiset_map<A, B>(s1: Seq<A>, s2: Seq<A>, f: spec_fn(A) -> B)
    requires
        s1.to_multiset() == s2.to_multiset(),
    ensures
        s1.map_values(f).to_multiset() == s2.map_values(f).to_multiset(),
    decreases s1.len(),
{
    broadcast use vstd::seq_lib::group_to_multiset_ensures;

    if s1.len() == 0 {
        assert(s2.len() == 0) by {
            vstd::seq_lib::to_multiset_len(s1);
            vstd::seq_lib::to_multiset_len(s2);
        }
        assert(s1.map_values(f) =~= s2.map_values(f));
    } else {
        let x = s1.last();
        assert(s1 =~= s1.drop_last().push(x));
        assert(s1.to_multiset() == s1.drop_last().to_multiset().insert(x));
        assert(s2.to_multiset().count(x) > 0);
        assert(s2.contains(x));
        let i = choose|i: int| 0 <= i < s2.len() && s2[i] == x;
        assert(s2.remove(i).to_multiset() == s2.to_multiset().remove(x));
        assert(s1.drop_last().to_multiset() =~= s2.remove(i).to_multiset());
        lemma_multiset_map(s1.drop_last(), s2.remove(i), f);
        assert(s1.map_values(f) =~= s1.drop_last().map_values(f).push(f(x)));
        assert(s2.remove(i).map_values(f) =~= s2.map_values(f).remove(i));
        assert(s2.map_values(f).remove(i).to_multiset() == s2.map_values(f).to_multiset().remove(
            f(x),
        ));
        assert(s2.map_values(f).to_multiset().count(f(x)) > 0) by {
            assert(s2.map_values(f)[i] == f(x));
            assert(s2.map_values(f).contains(f(x)));
        }
        assert(s1.map_values(f).to_multiset() =~= s2.map_values(f).to_multiset());
    }
}

/// The importable values of a checked module with their printed types,
/// sorted by name and then by type.
pub fn module_values(m: &TypedModule) -> (r: Vec<(String, String)>)
    ensures
        r@.map_values(|p: (String, String)| pair_view(p)).to_multiset() == exported_pairs(
            m.type_info.values@,
            m.type_names@,
        ).to_multiset(),
        forall|i: int, j: int| 0 <= i < j < r@.len() ==> pair_le(#[trigger] r@[i], #[trigger] r@[j]),
{
    let mut pairs: Vec<(String, String)> = Vec::new();
    let vs = &m.type_info.values;
    let mut i: usize = 0;
    while i < vs.len()
        invariant
            i <= vs@.len(),
            pairs@.map_values(|p: (String, String)| pair_view(p)) == exported_pairs(
                vs@.take(i as int),
                m.type_names@,
            ),
        decreases vs@.len() - i,
    {
        let v = &vs[i];
        assert(vs@.take(i + 1).drop_last() =~= vs@.take(i as int));
        if v.publicity.is_importable() {
            let text = print_type(&m.type_names, &v.scheme);
            let p = (string_of(&v.name), string_of(&text));
            assert(pairs@.push(p).map_values(|p: (String, String)| pair_view(p)) =~= pairs@.map_values(
                |p: (String, String)| pair_view(p),
            ).push(pair_view(p)));
            pairs.push(p);
        }
        i = i + 1;
    }
    assert(vs@.take(vs@.len() as int) =~= vs@);
    let r = sorted_pairs(pairs);
    proof {
        lemma_multiset_map(r@, pairs@, |p: (String, String)| pair_view(p));
    }
    r
}

/// The listed values are those of a checked module: exactly its importable
/// values with their printed types, in some order.
pub open spec fn lists_module(vs: Seq<(String, String)>, m: TypedModule) -> bool {
    vs.map_values(|p: (String, String)| pair_view(p)).to_multiset() == exported_pairs(
        m.type_info.values@,
        m.type_names@,
    ).to_multiset()
}

proof fn lemma_exported_pair_origin(vs: Seq<ValueInfo>, names: Seq<Vec<char>>, p: (
    Seq<char>,
    Seq<char>,
))
    requires
        exported_pairs(vs, names).contains(p),
    ensures
        exists|j: int|
            0 <= j < vs.len() && (#[trigger] vs[j]).publicity.importable() && vs[j].name@ == p.0
                && type_text(names, vs[j].scheme) == p.1,
    decreases vs.len(),
{
    let prev = exported_pairs(vs.drop_last(), names);
    let v = vs.last();
    if prev.contains(p) {
        lemma_exported_pair_origin(vs.drop_last(), names, p);
        let j = choose|j: int|
            0 <= j < vs.drop_last().len() && (#[trigger] vs.drop_last()[j]).publicity.importable()
                && vs.drop_last()[j].name@ == p.0 && type_text(names, vs.drop_last()[j].scheme)
                == p.1;
        assert(vs[j] == vs.drop_last()[j]);
    } else {
        let k = choose|k: int| 0 <= k < exported_pairs(vs, names).len() && exported_pairs(vs, names)[k] == p;
        assert(v.publicity.importable());
        assert(k == prev.len());
        assert(vs[vs.len() - 1] == v);
    }
}

/// No two values of `vs` share a name.
pub open spec fn distinct_names(vs: Seq<ValueInfo>) -> bool {
    forall|i: int, j: int| 0 <= i < j < vs.len() ==> (#[trigger] vs[i]).name@ != (#[trigger] vs[j]).name@
}

/// The name of a listed pair.
pub open spec fn pair_name(p: (Seq<char>, Seq<char>)) -> Seq<char> {
    p.0
}

proof fn lemma_exported_names_distinct(vs: Seq<ValueInfo>, names: Seq<Vec<char>>)
    requires
        distinct_names(vs),
    ensures
        exported_pairs(vs, names).map_values(|p: (Seq<char>, Seq<char>)| pair_name(p)).no_duplicates(),
    decreases vs.len(),
{
    if vs.len() > 0 {
        let prev = exported_pairs(vs.drop_last(), names);
        let v = vs.last();
        assert(distinct_names(vs.drop_last())) by {
            assert forall|i: int, j: int| 0 <= i < j < vs.drop_last().len() implies (
            #[trigger] vs.drop_last()[i]).name@ != (#[trigger] vs.drop_last()[j]).name@ by {
                assert(vs.drop_last()[i] == vs[i]);
                assert(vs.drop_last()[j] == vs[j]);
            }
        }
        lemma_exported_names_distinct(vs.drop_last(), names);
        if v.publicity.importable() {
            let pn = prev.map_values(|p: (Seq<char>, Seq<char>)| pair_name(p));
            let q = (v.name@, type_text(names, v.scheme));
            assert(exported_pairs(vs, names) == prev.push(q));
            assert(prev.push(q).map_values(|p: (Seq<char>, Seq<char>)| pair_name(p)) =~= pn.push(v.name@));
            assert forall|k: int| 0 <= k < pn.len() implies pn[k] != v.name@ by {
                assert(prev.contains(prev[k]));
                lemma_exported_pair_origin(vs.drop_last(), names, prev[k]);
                let j = choose|j: int|
                    0 <= j < vs.drop_last().len() && (#[trigger] vs.drop_last()[j]).publicity.importable()
                        && vs.drop_last()[j].name@ == prev[k].0 && type_text(names, vs.drop_last()[j].scheme)
                        == prev[k].1;
                assert(vs.drop_last()[j] == vs[j]);
                assert(vs[j].name@ != vs[vs.len() - 1].name@);
            }
        }
    }
}

/// Where the values of `m` have distinct names, so do the pairs listed for
/// it.
pub proof fn lemma_listed_names_distinct(vs: Seq<(String, String)>, m: TypedModule)
    requires
        lists_module(vs, m),
        distinct_names(m.type_info.values@),
    ensures
        forall|i: int, j: int| 0 <= i < j < vs.len() ==> (#[trigger] vs[i]).0@ != (#[trigger] vs[j]).0@,
{
    let ex = exported_pairs(m.type_info.values@, m.type_names@);
    let pv = vs.map_values(|p: (String, String)| pair_view(p));
    let f = |p: (Seq<char>, Seq<char>)| pair_name(p);
    lemma_exported_names_distinct(m.type_info.values@, m.type_names@);
    lemma_multiset_map(pv, ex, f);
    let en = ex.map_values(f);
    let vn = pv.map_values(f);
    en.lemma_multiset_has_no_duplicates();
    vn.lemma_multiset_has_no_duplicates_conv();
    assert forall|i: int, j: int| 0 <= i < j < vs.len() implies (#[trigger] vs[i]).0@ != (#[trigger] vs[j]).0@ by {
        assert(vn[i] == vs[i].0@);
        assert(vn[j] == vs[j].0@);
    }
}

/// Every value listed for a module is one of its importable values, with
/// its printed type: no private value is ever listed.
pub proof fn lemma_listed_values_importable(vs: Seq<(String, String)>, m: TypedModule)
    requires
        lists_module(vs, m),
    ensures
        forall|i: int|
            0 <= i < vs.len() ==> exists|j: int|
                0 <= j < m.type_info.values@.len() && (#[trigger] m.type_info.values@[j]).publicity.importable()
                    && m.type_info.values@[j].name@ == (#[trigger] vs[i]).0@ && type_text(
                    m.type_names@,
                    m.type_info.values@[j].scheme,
                ) == vs[i].1@,
{
    broadcast use vstd::seq_lib::group_to_multiset_ensures;

    let f = |p: (String, String)| pair_view(p);
    let ex = exported_pairs(m.type_info.values@, m.type_names@);
    assert forall|i: int| 0 <= i < vs.len() implies exists|j: int|
        0 <= j < m.type_info.values@.len() && (#[trigger] m.type_info.values@[j]).publicity.importable()
            && m.type_info.values@[j].name@ == (#[trigger] vs[i]).0@ && type_text(
            m.type_names@,
            m.type_info.values@[j].scheme,
        ) == vs[i].1@ by {
        let p = pair_view(vs[i]);
        assert(vs.map_values(f)[i] == p);
        assert(vs.map_values(f).contains(p));
        assert(vs.map_values(f).to_multiset().count(p) > 0);
        assert(ex.to_multiset().count(p) > 0);
        assert(ex.contains(p));
        lemma_exported_pair_origin(m.type_info.values@, m.type_names@, p);
    }
}

/// The importable values of a module checked for `target`, with their
/// printed types, sorted by name.
pub fn infer_module_with_target(
    module_name: &str,
    src: &str,
    dep: Vec<DependencyModule<'_>>,
    target: Target,
) -> (r: Result<Vec<(String, String)>, Vec<TypeError>>)
    ensures
        r matches Err(es) ==> es@.len() > 0,
        r matches Ok(vs) ==> forall|i: int, j: int|
            0 <= i < j < vs@.len() ==> pair_le(#[trigger] vs@[i], #[trigger] vs@[j]),
        r matches Ok(vs) ==> exists|m: TypedModule|
            #![trigger lists_module(vs@, m)]
            m.name@ == module_name@ && lists_module(vs@, m),
        r matches Ok(vs) ==> forall|i: int, j: int|
            0 <= i < j < vs@.len() ==> (#[trigger] vs@[i]).0@ != (#[trigger] vs@[j]).0@,
{
    match compile_module_with_opts(module_name, src, dep, target, TargetSupport::NotEnforced) {
        Ok(m) => {
            let vs = module_values(&m);
            let r: Result<Vec<(String, String)>, Vec<TypeError>> = Ok(vs);
            assert(lists_module(r->Ok_0@, m));
            proof {
                lemma_listed_names_distinct(r->Ok_0@, m);
            }
            r
        },
        Err(es) => Err(es),
    }
}

/// The importable values of the module `test_module`, checked for Erlang.
pub fn infer_module(src: &str, dep: Vec<DependencyModule<'_>>) -> (r: Result<
    Vec<(String, String)>,
    Vec<TypeError>,
>)
    ensures
        r matches Err(es) ==> es@.len() > 0,
        r matches Ok(vs) ==> forall|i: int, j: int|
            0 <= i < j < vs@.len() ==> pair_le(#[trigger] vs@[i], #[trigger] vs@[j]),
        r matches Ok(vs) ==> exists|m: TypedModule|
            #![trigger lists_module(vs@, m)]
            m.name@ == "test_module"@ && lists_module(vs@, m),
        r matches Ok(vs) ==> forall|i: int, j: int|
            0 <= i < j < vs@.len() ==> (#[trigger] vs@[i]).0@ != (#[trigger] vs@[j]).0@,
{
    infer_module_with_target("test_module", src, dep, Target::Erlang)
}

fn push_chars(out: &mut Vec<char>, s: &Vec<char>)
    ensures
        final(out)@ == old(out)@ + s@,
{
    let ghost start = out@;
    let mut i: usize = 0;
    while i < s.len()
        invariant
            i <= s@.len(),
            out@ == start + s@.take(i as int),
        decreases s@.len() - i,
    {
        out.push(s[i]);
        assert(s@.take(i + 1) =~= s@.take(i as int).push(s@[i as int]));
        i = i + 1;
    }
    assert(s@.take(s@.len() as int) =~= s@);
}

/// One `error: ...` line for each error, in order.
pub open spec fn error_lines(es: Seq<TypeError>) -> Seq<char>
    decreases es.len(),
{
    if es.len() == 0 {
        Seq::empty()
    } else {
        error_lines(es.drop_last()) + "error: "@ + description(es.last()) + seq!['\n']
    }
}

/// The report of a list of errors: their lines, then the path of the
/// module.
pub open spec fn rendered(es: Seq<TypeError>) -> Seq<char> {
    error_lines(es) + "  in /src/one/two.gleam\n"@
}

/// The report of a list of errors: one `error: ...` line each, then the
/// path of the module.
pub fn render_errors(es: &Vec<TypeError>) -> (r: Vec<char>)
    ensures
        r@ == rendered(es@),
{
    let mut out: Vec<char> = Vec::new();
    let mut i: usize = 0;
    while i < es.len()
        invariant
            i <= es@.len(),
            out@ == error_lines(es@.take(i as int)),
        decreases es@.len() - i,
    {
        assert(es@.take(i + 1).drop_last() =~= es@.take(i as int));
        push_chars(&mut out, &chars_of("error: "));
        push_chars(&mut out, &describe_error(&es[i]));
        out.push('\n');
        assert(out@ =~= error_lines(es@.take(i + 1)));
        i = i + 1;
    }
    assert(es@.take(es@.len() as int) =~= es@);
    push_chars(&mut out, &chars_of("  in /src/one/two.gleam\n"));
    out
}

/// The report of the errors of a module that fails to check, or `None`
/// when it checks.
fn report_failure(r: Result<TypedModule, Vec<TypeError>>) -> (s: Option<String>)
    requires
        r matches Err(es) ==> es@.len() > 0,
    ensures
        s is Some <==> r is Err,
        r matches Err(es) ==> s matches Some(text) && text@ == rendered(es@),
{
    match r {
        Ok(_) => None,
        Err(es) => {
            let ghost ev = es@;
            match nonempty_errors(es) {
                Ok(v) => Some(string_of(&render_errors(errors_of(&v)))),
                Err(_) => {
                    proof {
                        assert(false);
                    }
                    None
                },
            }
        },
    }
}

/// The report of the errors of the module `themodule` checked for
/// `target`, or `None` when it checks.
pub fn module_error_with_target(src: &str, deps: Vec<DependencyModule<'_>>, target: Target) -> (r:
    Option<String>)
    ensures
        r matches Some(text) ==> exists|es: Seq<TypeError>| es.len() > 0 && text@ == rendered(es),
{
    report_failure(
        compile_module_with_opts("themodule", src, deps, target, TargetSupport::NotEnforced),
    )
}

/// The report of the errors of the module `themodule` checked for Erlang,
/// or `None` when it checks.
pub fn module_error(src: &str, deps: Vec<DependencyModule<'_>>) -> (r: Option<String>)
    ensures
        r matches Some(text) ==> exists|es: Seq<TypeError>| es.len() > 0 && text@ == rendered(es),
{
    module_error_with_target(src, deps, Target::Erlang)
}

/// As `module_error_with_target`, for the internal module
/// `thepackage/internal/themodule`.
pub fn internal_module_error_with_target(
    src: &str,
    deps: Vec<DependencyModule<'_>>,
    target: Target,
) -> (r: Option<String>)
    ensures
        r matches Some(text) ==> exists|es: Seq<TypeError>| es.len() > 0 && text@ == rendered(es),
{
    report_failure(
        compile_module_with_opts(
            "thepackage/internal/themodule",
            src,
            deps,
            target,
            TargetSupport::NotEnforced,
        ),
    )
}

/// As `module_error`, for the internal module `thepackage/internal/themodule`.
pub fn internal_module_error(src: &str, deps: Vec<DependencyModule<'_>>) -> (r: Option<String>)
    ensures
        r matches Some(text) ==> exists|es: Seq<TypeError>| es.len() > 0 && text@ == rendered(es),
{
    internal_module_error_with_target(src, deps, Target::Erlang)
}

/// The report of a syntax error in a module, or `None` when it parses.
pub fn syntax_error(src: &str) -> (r: Option<String>)
    ensures
        r matches Some(text) ==> exists|p: usize| text@ == rendered(seq![TypeError::Syntax(p)]),
{
    match parse_source_module(src) {
        Ok(_) => None,
        Err(e) => {
            let es = single_error(e);
            let text = string_of(&render_errors(&es));
            assert(es@ =~= seq![es@[0]]);
            Some(text)
        },
    }
}

} // verus!
