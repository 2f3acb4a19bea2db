use vstd::prelude::*;
use crate::types::Ty;

verus! {

/// Identifies a variable while printing: quantified variables and
/// unification variables are told apart by the flag.
pub type VarKey = (bool, usize);

/// The key of a variable term.
pub open spec fn key_of(t: Ty) -> VarKey {
    match t {
        Ty::Gen(g) => (true, g),
        Ty::Var(v) => (false, v),
        _ => (false, 0),
    }
}

/// The position of `k` in `seen`, or `seen.len()` when it is absent.
pub open spec fn key_pos(seen: Seq<VarKey>, k: VarKey) -> nat
    decreases seen.len(),
{
    if seen.len() == 0 {
        0
    } else {
        let p = key_pos(seen.drop_last(), k);
        if p < seen.len() - 1 {
            p
        } else if seen.last() == k {
            (seen.len() - 1) as nat
        } else {
            seen.len()
        }
    }
}

/// The `n`-th lower case letter.
pub open spec fn letter(n: nat) -> char {
    ((n % 26) + 97) as char
}

/// The name of the `n`-th variable: `a` .. `z`, then `aa`, `ab`, ...
/// (bijective base 26).
pub open spec fn var_name(n: nat) -> Seq<char>
    decreases n,
{
    if n < 26 {
        seq![letter(n)]
    } else {
        var_name((n / 26 - 1) as nat) + seq![letter(n % 26)]
    }
}

/// The head of an application spine.
pub open spec fn head_of(t: Ty) -> Ty
    decreases t,
{
    match t {
        Ty::App(f, _) => head_of(*f),
        _ => t,
    }
}

/// The number of arguments on an application spine (saturating).
pub open spec fn arg_count(t: Ty) -> usize
    decreases t,
{
    match t {
        Ty::App(f, _) => if arg_count(*f) < usize::MAX {
            (arg_count(*f) + 1) as usize
        } else {
            usize::MAX
        },
        _ => 0,
    }
}

/// The text printed before the argument that follows `k` arguments.
pub open spec fn separator(h: Ty, k: usize) -> Seq<char> {
    match h {
        Ty::FnCon(n) => if k == n {
            seq![')', ' ', '-', '>', ' ']
        } else if k == 0 {
            seq![]
        } else {
            seq![',', ' ']
        },
        Ty::TupleCon(_) => if k == 0 {
            seq![]
        } else {
            seq![',', ' ']
        },
        _ => if k == 0 {
            seq!['(']
        } else {
            seq![',', ' ']
        },
    }
}

/// The text printed after the last of `k` arguments.
pub open spec fn closer(h: Ty, k: usize) -> Seq<char> {
    match h {
        Ty::FnCon(_) => seq![],
        Ty::TupleCon(_) => seq![')'],
        _ => if k == 0 {
            seq![]
        } else {
            seq![')']
        },
    }
}

/// The name printed for a named type constructor.
pub open spec fn con_name(tab: Seq<Vec<char>>, c: usize) -> Seq<char> {
    if (c as int) < tab.len() {
        tab[c as int]@
    } else {
        seq!['?']
    }
}

/// The name of a variable and the keys seen after naming it.
pub open spec fn name_var(seen: Seq<VarKey>, k: VarKey) -> (Seq<char>, Seq<VarKey>) {
    let i = key_pos(seen, k);
    (var_name(i), if i == seen.len() {
        seen.push(k)
    } else {
        seen
    })
}

/// The text of a spine without its closing bracket.
pub open spec fn text_partial(tab: Seq<Vec<char>>, t: Ty, seen: Seq<VarKey>) -> (
    Seq<char>,
    Seq<VarKey>,
)
    decreases t, 0nat,
{
    match t {
        Ty::App(f, a) => {
            let p = text_partial(tab, *f, seen);
            let q = type_text_from(tab, *a, p.1);
            (p.0 + separator(head_of(*f), arg_count(*f)) + q.0, q.1)
        },
        Ty::Var(_) => name_var(seen, key_of(t)),
        Ty::Gen(_) => name_var(seen, key_of(t)),
        Ty::Con(c) => (con_name(tab, c), seen),
        Ty::FnCon(_) => (seq!['f', 'n', '('], seen),
        Ty::TupleCon(_) => (seq!['#', '('], seen),
    }
}

/// The text of a type, naming variables in order of first appearance after
/// those already in `seen`.
pub open spec fn type_text_from(tab: Seq<Vec<char>>, t: Ty, seen: Seq<VarKey>) -> (
    Seq<char>,
    Seq<VarKey>,
)
    decreases t, 1nat,
{
    let p = text_partial(tab, t, seen);
    (p.0 + closer(head_of(t), arg_count(t)), p.1)
}

/// How a type is printed: `Int`, `List(a)`, `#(Int, a)`, `fn(a, b) -> c`,
/// with variables named `a`, `b`, ... in order of first appearance.
pub open spec fn type_text(tab: Seq<Vec<char>>, t: Ty) -> Seq<char> {
    type_text_from(tab, t, seq![]).0
}

/// `key_pos` is the first position of the key, or the length when absent.
pub proof fn lemma_key_pos(seen: Seq<VarKey>, k: VarKey)
    ensures
        key_pos(seen, k) <= seen.len(),
        key_pos(seen, k) < seen.len() ==> seen[key_pos(seen, k) as int] == k,
        forall|j: int| 0 <= j < key_pos(seen, k) ==> seen[j] != k,
    decreases seen.len(),
{
    if seen.len() > 0 {
        let d = seen.drop_last();
        lemma_key_pos(d, k);
        assert forall|j: int| 0 <= j < key_pos(seen, k) implies seen[j] != k by {
            if j < d.len() {
                assert(d[j] == seen[j]);
            }
        }
        if key_pos(d, k) < d.len() {
            assert(d[key_pos(d, k) as int] == seen[key_pos(d, k) as int]);
        }
    }
}

proof fn lemma_var_name_len(n: nat)
    ensures
        var_name(n).len() >= 1,
        n < 26 <==> var_name(n).len() == 1,
    decreases n,
{
    if n >= 26 {
        lemma_var_name_len((n / 26 - 1) as nat);
    }
}

/// Distinct variables get distinct names.
pub proof fn lemma_var_name_injective(m: nat, n: nat)
    requires
        var_name(m) == var_name(n),
    ensures
        m == n,
    decreases m,
{
    lemma_var_name_len(m);
    lemma_var_name_len(n);
    if m < 26 {
        assert(var_name(m)[0] == letter(m));
        assert(var_name(n)[0] == letter(n));
        assert(letter(m) as int == m % 26 + 97);
        assert(letter(n) as int == n % 26 + 97);
    } else {
        let pm = var_name((m / 26 - 1) as nat);
        let pn = var_name((n / 26 - 1) as nat);
        assert(var_name(m).last() == letter(m % 26));
        assert(var_name(n).last() == letter(n % 26));
        assert(letter(m % 26) as int == m % 26 + 97);
        assert(letter(n % 26) as int == n % 26 + 97);
        assert(var_name(m).drop_last() =~= pm);
        assert(var_name(n).drop_last() =~= pn);
        lemma_var_name_injective((m / 26 - 1) as nat, (n / 26 - 1) as nat);
    }
}

/// The type with each variable's key mapped by `f`.
pub open spec fn renamed(t: Ty, f: spec_fn(VarKey) -> VarKey) -> Ty
    decreases t,
{
    match t {
        Ty::App(a, b) => Ty::App(Box::new(renamed(*a, f)), Box::new(renamed(*b, f))),
        Ty::Var(_) => key_term(f(key_of(t))),
        Ty::Gen(_) => key_term(f(key_of(t))),
        _ => t,
    }
}

/// The variable term with the given key.
pub open spec fn key_term(k: VarKey) -> Ty {
    if k.0 {
        Ty::Gen(k.1)
    } else {
        Ty::Var(k.1)
    }
}

/// `f` maps distinct keys to distinct keys.
pub open spec fn injective(f: spec_fn(VarKey) -> VarKey) -> bool {
    forall|x: VarKey, y: VarKey| #[trigger] f(x) == #[trigger] f(y) ==> x == y
}

proof fn lemma_key_pos_renamed(seen: Seq<VarKey>, k: VarKey, f: spec_fn(VarKey) -> VarKey)
    requires
        injective(f),
    ensures
        key_pos(seen.map_values(f), f(k)) == key_pos(seen, k),
    decreases seen.len(),
{
    if seen.len() > 0 {
        lemma_key_pos_renamed(seen.drop_last(), k, f);
        assert(seen.map_values(f).drop_last() =~= seen.drop_last().map_values(f));
        assert(seen.map_values(f).last() == f(seen.last()));
    }
}

proof fn lemma_head_renamed(t: Ty, f: spec_fn(VarKey) -> VarKey)
    ensures
        head_of(t) is FnCon ==> head_of(renamed(t, f)) == head_of(t),
        head_of(t) is TupleCon ==> head_of(renamed(t, f)) == head_of(t),
        !(head_of(t) is FnCon) ==> !(head_of(renamed(t, f)) is FnCon),
        !(head_of(t) is TupleCon) ==> !(head_of(renamed(t, f)) is TupleCon),
        arg_count(renamed(t, f)) == arg_count(t),
    decreases t,
{
    match t {
        Ty::App(a, _) => lemma_head_renamed(*a, f),
        _ => {},
    }
}

proof fn lemma_separator_renamed(t: Ty, f: spec_fn(VarKey) -> VarKey, k: usize)
    ensures
        separator(head_of(renamed(t, f)), k) == separator(head_of(t), k),
        closer(head_of(renamed(t, f)), k) == closer(head_of(t), k),
{
    lemma_head_renamed(t, f);
}

proof fn lemma_text_renamed(
    tab: Seq<Vec<char>>,
    t: Ty,
    seen: Seq<VarKey>,
    f: spec_fn(VarKey) -> VarKey,
)
    requires
        injective(f),
    ensures
        text_partial(tab, renamed(t, f), seen.map_values(f)).0 == text_partial(tab, t, seen).0,
        text_partial(tab, renamed(t, f), seen.map_values(f)).1 == text_partial(
            tab,
            t,
            seen,
        ).1.map_values(f),
        type_text_from(tab, renamed(t, f), seen.map_values(f)).0 == type_text_from(tab, t, seen).0,
        type_text_from(tab, renamed(t, f), seen.map_values(f)).1 == type_text_from(
            tab,
            t,
            seen,
        ).1.map_values(f),
    decreases t,
{
    lemma_head_renamed(t, f);
    lemma_separator_renamed(t, f, arg_count(t));
    match t {
        Ty::App(a, b) => {
            lemma_text_renamed(tab, *a, seen, f);
            let p = text_partial(tab, *a, seen);
            lemma_text_renamed(tab, *b, p.1, f);
            lemma_separator_renamed(*a, f, arg_count(*a));
            lemma_head_renamed(*a, f);
        },
        Ty::Var(_) => {
            let k = key_of(t);
            lemma_key_pos_renamed(seen, k, f);
            assert(key_of(renamed(t, f)) == f(k));
            assert(seen.push(k).map_values(f) =~= seen.map_values(f).push(f(k)));
        },
        Ty::Gen(_) => {
            let k = key_of(t);
            lemma_key_pos_renamed(seen, k, f);
            assert(key_of(renamed(t, f)) == f(k));
            assert(seen.push(k).map_values(f) =~= seen.map_values(f).push(f(k)));
        },
        _ => {},
    }
}

/// Renaming the variables of a type one to one does not change how it is
/// printed: the names come from the order of first appearance alone.
pub proof fn lemma_type_text_renamed(tab: Seq<Vec<char>>, t: Ty, f: spec_fn(VarKey) -> VarKey)
    requires
        injective(f),
    ensures
        type_text(tab, renamed(t, f)) == type_text(tab, t),
{
    lemma_text_renamed(tab, t, seq![], f);
    assert(Seq::<VarKey>::empty().map_values(f) =~= Seq::<VarKey>::empty());
}

/// The `n`-th letter as an executable character.
pub fn letter_exec(n: usize) -> (c: char)
    ensures
        c == letter(n as nat),
{
    let m: u8 = (n % 26) as u8;
    let code: u8 = m + 97u8;
    proof {
        assert(code as int == (n as nat % 26) + 97);
    }
    code as char
}

/// Appends the name of the `n`-th variable.
pub fn write_var_name(n: usize, out: &mut Vec<char>)
    ensures
        final(out)@ == old(out)@ + var_name(n as nat),
    decreases n,
{
    if n < 26 {
        out.push(letter_exec(n));
        proof {
            assert(final(out)@ =~= old(out)@ + var_name(n as nat));
        }
    } else {
        write_var_name(n / 26 - 1, out);
        let ghost mid = out@;
        out.push(letter_exec(n % 26));
        proof {
            assert((n % 26) as nat == n as nat % 26);
            assert(out@ =~= old(out)@ + var_name(n as nat));
        }
    }
}

/// The position of `k` in `seen`, or its length.
pub fn find_key(seen: &Vec<VarKey>, k: VarKey) -> (r: usize)
    ensures
        r as nat == key_pos(seen@, k),
{
    let mut i: usize = 0;
    while i < seen.len()
        invariant
            i <= seen@.len(),
            forall|j: int| 0 <= j < i ==> seen@[j] != k,
        decreases seen@.len() - i,
    {
        let (b, v) = seen[i];
        if b == k.0 && v == k.1 {
            proof {
                lemma_key_pos(seen@, k);
                assert(seen@[i as int] == k);
            }
            return i;
        }
        i = i + 1;
    }
    proof {
        lemma_key_pos(seen@, k);
    }
    i
}

fn write_name_var(seen: &mut Vec<VarKey>, k: VarKey, out: &mut Vec<char>)
    ensures
        final(out)@ == old(out)@ + name_var(old(seen)@, k).0,
        final(seen)@ == name_var(old(seen)@, k).1,
{
    let i = find_key(seen, k);
    write_var_name(i, out);
    if i == seen.len() {
        seen.push(k);
    }
}

/// The head of an application spine.
pub fn head_exec(t: &Ty) -> (h: &Ty)
    ensures
        *h == head_of(*t),
    decreases t,
{
    match t {
        Ty::App(f, _) => head_exec(f),
        _ => t,
    }
}

fn write_separator(h: &Ty, k: usize, out: &mut Vec<char>)
    ensures
        final(out)@ == old(out)@ + separator(*h, k),
{
    match h {
        Ty::FnCon(n) => {
            if k == *n {
                out.push(')');
                out.push(' ');
                out.push('-');
                out.push('>');
                out.push(' ');
            } else if k == 0 {
            } else {
                out.push(',');
                out.push(' ');
            }
        },
        Ty::TupleCon(_) => {
            if k != 0 {
                out.push(',');
                out.push(' ');
            }
        },
        _ => {
            if k == 0 {
                out.push('(');
            } else {
                out.push(',');
                out.push(' ');
            }
        },
    }
    proof {
        assert(final(out)@ =~= old(out)@ + separator(*h, k));
    }
}

fn write_closer(h: &Ty, k: usize, out: &mut Vec<char>)
    ensures
        final(out)@ == old(out)@ + closer(*h, k),
{
    match h {
        Ty::FnCon(_) => {},
        Ty::TupleCon(_) => {
            out.push(')');
        },
        _ => {
            if k != 0 {
                out.push(')');
            }
        },
    }
    proof {
        assert(final(out)@ =~= old(out)@ + closer(*h, k));
    }
}

fn write_chars(src: &Vec<char>, out: &mut Vec<char>)
    ensures
        final(out)@ == old(out)@ + src@,
{
    let mut i: usize = 0;
    while i < src.len()
        invariant
            i <= src@.len(),
            out@ == old(out)@ + src@.subrange(0, i as int),
        decreases src@.len() - i,
    {
        out.push(src[i]);
        i = i + 1;
        proof {
            assert(out@ =~= old(out)@ + src@.subrange(0, i as int));
        }
    }
    proof {
        assert(src@.subrange(0, src@.len() as int) =~= src@);
    }
}

fn write_partial(tab: &Vec<Vec<char>>, t: &Ty, out: &mut Vec<char>, seen: &mut Vec<VarKey>) -> (k: usize)
    ensures
        k == arg_count(*t),
        final(out)@ == old(out)@ + text_partial(tab@, *t, old(seen)@).0,
        final(seen)@ == text_partial(tab@, *t, old(seen)@).1,
    decreases t, 0nat,
{
    match t {
        Ty::App(f, a) => {
            let k = write_partial(tab, f, out, seen);
            write_separator(head_exec(f), k, out);
            write_type(tab, a, out, seen);
            proof {
                let p = text_partial(tab@, **f, old(seen)@);
                let q = type_text_from(tab@, **a, p.1);
                assert(out@ =~= old(out)@ + (p.0 + separator(head_of(**f), arg_count(**f)) + q.0));
            }
            if k < usize::MAX {
                k + 1
            } else {
                k
            }
        },
        Ty::Var(v) => {
            write_name_var(seen, (false, *v), out);
            0
        },
        Ty::Gen(g) => {
            write_name_var(seen, (true, *g), out);
            0
        },
        Ty::Con(c) => {
            if *c < tab.len() {
                write_chars(&tab[*c], out);
            } else {
                out.push('?');
                proof {
                    assert(final(out)@ =~= old(out)@ + seq!['?']);
                }
            }
            0
        },
        Ty::FnCon(_) => {
            out.push('f');
            out.push('n');
            out.push('(');
            proof {
                assert(final(out)@ =~= old(out)@ + seq!['f', 'n', '(']);
            }
            0
        },
        Ty::TupleCon(_) => {
            out.push('#');
            out.push('(');
            proof {
                assert(final(out)@ =~= old(out)@ + seq!['#', '(']);
            }
            0
        },
    }
}

/// Appends the text of `t`, continuing the variable naming of `seen`.
pub fn write_type(tab: &Vec<Vec<char>>, t: &Ty, out: &mut Vec<char>, seen: &mut Vec<VarKey>)
    ensures
        final(out)@ == old(out)@ + type_text_from(tab@, *t, old(seen)@).0,
        final(seen)@ == type_text_from(tab@, *t, old(seen)@).1,
    decreases t, 1nat,
{
    let k = write_partial(tab, t, out, seen);
    write_closer(head_exec(t), k, out);
    proof {
        let p = text_partial(tab@, *t, old(seen)@);
        assert(final(out)@ =~= old(out)@ + (p.0 + closer(head_of(*t), arg_count(*t))));
    }
}

/// The text of a type, with a fresh variable naming.
pub fn print_type(tab: &Vec<Vec<char>>, t: &Ty) -> (s: Vec<char>)
    ensures
        s@ == type_text(tab@, *t),
{
    let mut out: Vec<char> = Vec::new();
    let mut seen: Vec<VarKey> = Vec::new();
    write_type(tab, t, &mut out, &mut seen);
    proof {
        assert(out@ =~= type_text(tab@, *t));
    }
    out
}

} // verus!
