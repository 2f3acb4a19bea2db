use vstd::prelude::*;

verus! {

/// One node of a pattern written out in preorder: a pattern is its head node
/// followed by the patterns of the head's arguments, so that a row of patterns
/// is one flat sequence of nodes.
#[derive(Clone, Copy)]
pub enum Node {
    /// Matches every value.
    Any,
    /// A literal of a type with unboundedly many values.
    Lit,
    /// Constructor `idx` of a type with `count` constructors, applied to
    /// `arity` argument patterns.
    Con { idx: usize, count: usize, arity: usize },
}

/// The first node of a row; an exhausted row reads as a wildcard.
pub open spec fn head(row: Seq<Node>) -> Node {
    if row.len() > 0 {
        row[0]
    } else {
        Node::Any
    }
}

/// A row without its first node.
pub open spec fn rest(row: Seq<Node>) -> Seq<Node> {
    if row.len() > 0 {
        row.skip(1)
    } else {
        row
    }
}

/// `a` wildcards.
pub open spec fn anys(a: nat) -> Seq<Node> {
    Seq::new(a, |i: int| Node::Any)
}

/// The matrix as sequences.
pub open spec fn rows_view(m: Seq<Vec<Node>>) -> Seq<Seq<Node>> {
    m.map_values(|r: Vec<Node>| r@)
}

/// The rows that can match a value built with constructor `k` of `a`
/// arguments, with their first pattern replaced by the patterns of those
/// arguments.
pub open spec fn specialize(m: Seq<Seq<Node>>, k: nat, a: nat) -> Seq<Seq<Node>>
    decreases m.len(),
{
    if m.len() == 0 {
        Seq::empty()
    } else {
        let prev = specialize(m.drop_last(), k, a);
        let row = m.last();
        match head(row) {
            Node::Any => prev.push(anys(a) + rest(row)),
            Node::Con { idx, .. } => if idx == k {
                prev.push(rest(row))
            } else {
                prev
            },
            Node::Lit => prev,
        }
    }
}

/// The rows whose first pattern is a wildcard, without it.
pub open spec fn default_rows(m: Seq<Seq<Node>>) -> Seq<Seq<Node>>
    decreases m.len(),
{
    if m.len() == 0 {
        Seq::empty()
    } else {
        let prev = default_rows(m.drop_last());
        let row = m.last();
        match head(row) {
            Node::Any => prev.push(rest(row)),
            _ => prev,
        }
    }
}

/// The number of constructors of the first column's type, read from its
/// first constructor pattern; 0 when the column has none.
pub open spec fn family(m: Seq<Seq<Node>>) -> nat
    decreases m.len(),
{
    if m.len() == 0 {
        0
    } else {
        match head(m[0]) {
            Node::Con { count, .. } => count as nat,
            _ => family(m.skip(1)),
        }
    }
}

/// The constructor family of a column is read from the first row, in
/// order, whose first pattern is a constructor, whatever wildcards or
/// literals come before it; a column with no constructor pattern has none.
pub proof fn lemma_family_first_con(m: Seq<Seq<Node>>)
    ensures
        (forall|r: int| 0 <= r < m.len() ==> !(#[trigger] head(m[r]) is Con)) ==> family(m) == 0,
        forall|r: int|
            0 <= r < m.len() && (#[trigger] head(m[r]) is Con) && (forall|q: int|
                0 <= q < r ==> !(#[trigger] head(m[q]) is Con)) ==> family(m) == head(m[r])->Con_count
                as nat,
    decreases m.len(),
{
    if m.len() > 0 {
        lemma_family_first_con(m.skip(1));
        assert forall|r: int| 0 <= r < m.skip(1).len() implies #[trigger] m.skip(1)[r] == m[r + 1] by {}
        if !(head(m[0]) is Con) {
            assert forall|r: int|
                0 <= r < m.len() && (#[trigger] head(m[r]) is Con) && (forall|q: int|
                    0 <= q < r ==> !(#[trigger] head(m[q]) is Con)) implies family(m) == head(m[r])->Con_count
                    as nat by {
                assert(r >= 1);
                assert(head(m.skip(1)[r - 1]) is Con);
                assert forall|q: int| 0 <= q < r - 1 implies !(#[trigger] head(m.skip(1)[q]) is Con) by {
                    assert(m.skip(1)[q] == m[q + 1]);
                    assert(!(head(m[q + 1]) is Con));
                }
            }
            if forall|r: int| 0 <= r < m.len() ==> !(#[trigger] head(m[r]) is Con) {
                assert forall|r: int| 0 <= r < m.skip(1).len() implies !(#[trigger] head(m.skip(1)[r]) is Con) by {
                    assert(!(head(m[r + 1]) is Con));
                }
            }
        } else {
            assert forall|r: int|
                0 <= r < m.len() && (#[trigger] head(m[r]) is Con) && (forall|q: int|
                    0 <= q < r ==> !(#[trigger] head(m[q]) is Con)) implies family(m) == head(m[r])->Con_count
                    as nat by {
                if r > 0 {
                    assert(!(head(m[0]) is Con));
                }
            }
        }
    }
}

/// The arity of constructor `k` in the first column, from its first
/// occurrence there.
pub open spec fn arity_of(m: Seq<Seq<Node>>, k: nat) -> Option<nat>
    decreases m.len(),
{
    if m.len() == 0 {
        None
    } else {
        match head(m[0]) {
            Node::Con { idx, arity, .. } => if idx == k {
                Some(arity as nat)
            } else {
                arity_of(m.skip(1), k)
            },
            _ => arity_of(m.skip(1), k),
        }
    }
}

/// Every constructor of the first column's type occurs in it.
pub open spec fn complete(m: Seq<Seq<Node>>) -> bool {
    &&& family(m) > 0
    &&& forall|k: nat| k < family(m) ==> (#[trigger] arity_of(m, k)) is Some
}

/// Whether some value is matched by no row of `m`, a matrix of `n` columns:
/// `Some(true)` when such a value exists, `Some(false)` when every value is
/// matched, `None` when the search needs more than `fuel` steps or more
/// columns than a `usize` counts.
pub open spec fn useful(m: Seq<Seq<Node>>, n: nat, fuel: nat) -> Option<bool>
    decreases fuel, 1nat, 0nat,
{
    if fuel == 0 {
        None
    } else if n == 0 {
        Some(m.len() == 0)
    } else if complete(m) {
        useful_from(m, n, fuel, 0)
    } else {
        useful(default_rows(m), (n - 1) as nat, (fuel - 1) as nat)
    }
}

/// `useful` over the constructors `k`, `k + 1`, ... of a complete first
/// column.
pub open spec fn useful_from(m: Seq<Seq<Node>>, n: nat, fuel: nat, k: nat) -> Option<bool>
    decreases fuel, 0nat, family(m) - k,
{
    if fuel == 0 || n == 0 || k >= family(m) {
        Some(false)
    } else {
        let a = match arity_of(m, k) {
            Some(a) => a,
            None => 0,
        };
        if a + n - 1 > usize::MAX {
            None
        } else {
            match useful(specialize(m, k, a), (a + n - 1) as nat, (fuel - 1) as nat) {
                None => None,
                Some(true) => Some(true),
                Some(false) => useful_from(m, n, fuel, k + 1),
            }
        }
    }
}

/// A row of `n` wildcards.
pub open spec fn catch_all(row: Seq<Node>, n: nat) -> bool {
    row.len() == n && forall|i: int| 0 <= i < n ==> #[trigger] row[i] == Node::Any
}

proof fn lemma_specialize_keeps_catch_all(m: Seq<Seq<Node>>, k: nat, a: nat, r: int, n: nat)
    requires
        0 <= r < m.len(),
        n > 0,
        catch_all(m[r], n),
    ensures
        exists|r2: int| 0 <= r2 < specialize(m, k, a).len() && catch_all(
            #[trigger] specialize(m, k, a)[r2],
            (a + n - 1) as nat,
        ),
    decreases m.len(),
{
    let row = m.last();
    if r == m.len() - 1 {
        assert(head(row) == Node::Any);
        let nr = anys(a) + rest(row);
        assert(catch_all(nr, (a + n - 1) as nat));
        assert(specialize(m, k, a).last() == nr);
    } else {
        assert(m.drop_last()[r] == m[r]);
        lemma_specialize_keeps_catch_all(m.drop_last(), k, a, r, n);
        let p = specialize(m.drop_last(), k, a);
        let r2 = choose|r2: int| 0 <= r2 < p.len() && catch_all(#[trigger] p[r2], (a + n - 1) as nat);
        assert(specialize(m, k, a)[r2] == p[r2]);
    }
}

proof fn lemma_default_keeps_catch_all(m: Seq<Seq<Node>>, r: int, n: nat)
    requires
        0 <= r < m.len(),
        n > 0,
        catch_all(m[r], n),
    ensures
        exists|r2: int| 0 <= r2 < default_rows(m).len() && catch_all(
            #[trigger] default_rows(m)[r2],
            (n - 1) as nat,
        ),
    decreases m.len(),
{
    let row = m.last();
    if r == m.len() - 1 {
        assert(head(row) == Node::Any);
        assert(catch_all(rest(row), (n - 1) as nat));
        assert(default_rows(m).last() == rest(row));
    } else {
        assert(m.drop_last()[r] == m[r]);
        lemma_default_keeps_catch_all(m.drop_last(), r, n);
        let p = default_rows(m.drop_last());
        let r2 = choose|r2: int| 0 <= r2 < p.len() && catch_all(#[trigger] p[r2], (n - 1) as nat);
        assert(default_rows(m)[r2] == p[r2]);
    }
}

/// A row of wildcards makes a matrix exhaustive: no value is left unmatched,
/// however much fuel the search is given.
pub proof fn lemma_catch_all_exhaustive(m: Seq<Seq<Node>>, n: nat, fuel: nat, r: int)
    requires
        0 <= r < m.len(),
        catch_all(m[r], n),
    ensures
        useful(m, n, fuel) != Some(true),
    decreases fuel, 1nat, 0nat,
{
    if fuel == 0 || n == 0 {
    } else if complete(m) {
        lemma_catch_all_exhaustive_from(m, n, fuel, 0, r);
    } else {
        lemma_default_keeps_catch_all(m, r, n);
        let d = default_rows(m);
        let r2 = choose|r2: int| 0 <= r2 < d.len() && catch_all(#[trigger] d[r2], (n - 1) as nat);
        lemma_catch_all_exhaustive(d, (n - 1) as nat, (fuel - 1) as nat, r2);
    }
}

proof fn lemma_catch_all_exhaustive_from(m: Seq<Seq<Node>>, n: nat, fuel: nat, k: nat, r: int)
    requires
        0 <= r < m.len(),
        catch_all(m[r], n),
    ensures
        useful_from(m, n, fuel, k) != Some(true),
    decreases fuel, 0nat, family(m) - k,
{
    if fuel == 0 || n == 0 || k >= family(m) {
    } else {
        let a = match arity_of(m, k) {
            Some(a) => a,
            None => 0,
        };
        if a + n - 1 <= usize::MAX {
            lemma_specialize_keeps_catch_all(m, k, a, r, n);
            let s = specialize(m, k, a);
            let r2 = choose|r2: int|
                0 <= r2 < s.len() && catch_all(#[trigger] s[r2], (a + n - 1) as nat);
            lemma_catch_all_exhaustive(s, (a + n - 1) as nat, (fuel - 1) as nat, r2);
            lemma_catch_all_exhaustive_from(m, n, fuel, k + 1, r);
        }
    }
}

/// With no rows, some value is unmatched, given fuel for one step per
/// column.
pub proof fn lemma_no_rows_inexhaustive(n: nat, fuel: nat)
    requires
        fuel > n,
    ensures
        useful(Seq::<Seq<Node>>::empty(), n, fuel) == Some(true),
    decreases n,
{
    let m = Seq::<Seq<Node>>::empty();
    assert(family(m) == 0);
    if n > 0 {
        assert(default_rows(m) =~= m);
        lemma_no_rows_inexhaustive((n - 1) as nat, (fuel - 1) as nat);
    }
}

/// A value, as far as patterns tell values apart.
pub enum Val {
    /// A value of a type with unboundedly many values.
    Lit(int),
    /// Constructor `idx` of a type with `count` constructors, applied to
    /// its arguments.
    Con(nat, nat, Seq<Val>),
}

/// The row matches the values: its patterns, in preorder, match them in
/// order. A literal pattern is taken to match no value, so that what is
/// shown of a matrix holds whatever its literals are.
pub open spec fn matches_vals(row: Seq<Node>, vals: Seq<Val>) -> bool
    decreases row.len(),
{
    if row.len() == 0 {
        vals.len() == 0
    } else if vals.len() == 0 {
        false
    } else {
        match row[0] {
            Node::Any => matches_vals(row.skip(1), vals.skip(1)),
            Node::Lit => false,
            Node::Con { idx, .. } => match vals[0] {
                Val::Con(i, _, args) => i == idx as nat && matches_vals(
                    row.skip(1),
                    args + vals.skip(1),
                ),
                Val::Lit(_) => false,
            },
        }
    }
}

/// The values have the shapes that the row's constructor patterns expect:
/// where a pattern names a constructor, the value is built by one of the
/// same type, with the pattern's arity when it is the same constructor.
pub open spec fn conforms(row: Seq<Node>, vals: Seq<Val>) -> bool
    decreases row.len(),
{
    if row.len() == 0 || vals.len() == 0 {
        true
    } else {
        match row[0] {
            Node::Any => conforms(row.skip(1), vals.skip(1)),
            Node::Lit => true,
            Node::Con { idx, count, arity } => match vals[0] {
                Val::Con(i, c, args) => c == count as nat && i < c && (i == idx as nat
                    ==> args.len() == arity && conforms(row.skip(1), args + vals.skip(1))),
                Val::Lit(_) => false,
            },
        }
    }
}

/// The row is exactly `n` patterns written out in preorder.
pub open spec fn encodes(row: Seq<Node>, n: nat) -> bool
    decreases row.len(),
{
    if row.len() == 0 {
        n == 0
    } else if n == 0 {
        false
    } else {
        match row[0] {
            Node::Con { arity, .. } => encodes(row.skip(1), (n - 1 + arity) as nat),
            _ => encodes(row.skip(1), (n - 1) as nat),
        }
    }
}

/// How many patterns remain to be read after reading `row` with `n` to
/// read; `None` when the row holds more than `n` patterns.
pub open spec fn pending(row: Seq<Node>, n: nat) -> Option<nat>
    decreases row.len(),
{
    if row.len() == 0 {
        Some(n)
    } else if n == 0 {
        None
    } else {
        match row[0] {
            Node::Con { arity, .. } => pending(row.skip(1), (n - 1 + arity) as nat),
            _ => pending(row.skip(1), (n - 1) as nat),
        }
    }
}

/// `after` is `before` followed by the nodes of exactly one pattern.
pub open spec fn extends_by_pattern(before: Seq<Node>, after: Seq<Node>) -> bool {
    &&& before.is_prefix_of(after)
    &&& encodes(after.skip(before.len() as int), 1)
}

/// A row is exactly `n` patterns when nothing remains to be read after it.
pub proof fn lemma_pending_encodes(row: Seq<Node>, n: nat)
    ensures
        encodes(row, n) == (pending(row, n) == Some(0nat)),
    decreases row.len(),
{
    if row.len() > 0 && n > 0 {
        match row[0] {
            Node::Con { arity, .. } => lemma_pending_encodes(row.skip(1), (n - 1 + arity) as nat),
            _ => lemma_pending_encodes(row.skip(1), (n - 1) as nat),
        }
    }
}

/// Reading two rows one after the other.
pub proof fn lemma_pending_concat(x: Seq<Node>, y: Seq<Node>, n: nat)
    ensures
        pending(x + y, n) == match pending(x, n) {
            Some(k) => pending(y, k),
            None => None,
        },
    decreases x.len(),
{
    if x.len() == 0 {
        assert(x + y =~= y);
    } else {
        assert((x + y)[0] == x[0]);
        assert((x + y).skip(1) =~= x.skip(1) + y);
        if n > 0 {
            match x[0] {
                Node::Con { arity, .. } => lemma_pending_concat(x.skip(1), y, (n - 1 + arity) as nat),
                _ => lemma_pending_concat(x.skip(1), y, (n - 1) as nat),
            }
        }
    }
}

/// With more to read at the start, as much more remains at the end.
pub proof fn lemma_pending_shift(x: Seq<Node>, n: nat, j: nat)
    requires
        pending(x, n) is Some,
    ensures
        pending(x, n + j) == Some((pending(x, n)->0 + j) as nat),
    decreases x.len(),
{
    if x.len() > 0 {
        match x[0] {
            Node::Con { arity, .. } => lemma_pending_shift(x.skip(1), (n - 1 + arity) as nat, j),
            _ => lemma_pending_shift(x.skip(1), (n - 1) as nat, j),
        }
    }
}

/// Appending one node to what was read so far.
pub proof fn lemma_pending_push(start: Seq<Node>, x: Node, k: nat)
    requires
        pending(start, 1) == Some(k),
        k >= 1,
    ensures
        pending(start.push(x), 1) == Some(
            match x {
                Node::Con { arity, .. } => (k - 1 + arity) as nat,
                _ => (k - 1) as nat,
            },
        ),
{
    lemma_pending_concat(start, seq![x], 1);
    assert(start.push(x) =~= start + seq![x]);
    assert(seq![x].skip(1) =~= Seq::<Node>::empty());
    reveal_with_fuel(pending, 2);
}

/// Appending the nodes of one whole pattern to what was read so far.
pub proof fn lemma_pending_pattern(start: Seq<Node>, seg: Seq<Node>, k: nat)
    requires
        pending(start, 1) == Some(k),
        k >= 1,
        encodes(seg, 1),
    ensures
        pending(start + seg, 1) == Some((k - 1) as nat),
{
    lemma_pending_encodes(seg, 1);
    lemma_pending_concat(start, seg, 1);
    lemma_pending_shift(seg, 1, (k - 1) as nat);
}

/// What `nodes` grew by, when it grew from `a` to `b` and then to `c`.
pub proof fn lemma_grown(a: Seq<Node>, b: Seq<Node>, c: Seq<Node>, start: int)
    requires
        0 <= start <= a.len(),
        a.is_prefix_of(b),
        b.is_prefix_of(c),
    ensures
        a.is_prefix_of(c),
        c.skip(start) == b.skip(start) + c.skip(b.len() as int),
{
    assert(c.subrange(0, a.len() as int) =~= b.subrange(0, a.len() as int));
    assert(c.skip(start) =~= b.skip(start) + c.skip(b.len() as int)) by {
        assert forall|x: int| 0 <= x < c.skip(start).len() implies c.skip(start)[x] == (b.skip(start)
            + c.skip(b.len() as int))[x] by {
            if start + x < b.len() {
                assert(c[start + x] == c.subrange(0, b.len() as int)[start + x]);
            }
        }
    }
}

/// Nothing read yet: one pattern to read.
pub proof fn lemma_grow_start(n0: Seq<Node>)
    ensures
        n0.is_prefix_of(n0),
        pending(n0.skip(n0.len() as int), 1) == Some(1nat),
{
    assert(n0.subrange(0, n0.len() as int) =~= n0);
    assert(n0.skip(n0.len() as int) =~= Seq::<Node>::empty());
}

/// One more node read.
pub proof fn lemma_grow_node(n0: Seq<Node>, before: Seq<Node>, x: Node, k: nat)
    requires
        n0.is_prefix_of(before),
        pending(before.skip(n0.len() as int), 1) == Some(k),
        k >= 1,
    ensures
        n0.is_prefix_of(before.push(x)),
        pending(before.push(x).skip(n0.len() as int), 1) == Some(
            match x {
                Node::Con { arity, .. } => (k - 1 + arity) as nat,
                _ => (k - 1) as nat,
            },
        ),
{
    assert(before.push(x).subrange(0, n0.len() as int) =~= before.subrange(0, n0.len() as int));
    assert(before.push(x).skip(n0.len() as int) =~= before.skip(n0.len() as int).push(x));
    lemma_pending_push(before.skip(n0.len() as int), x, k);
}

/// One more whole pattern read.
pub proof fn lemma_grow_pattern(n0: Seq<Node>, before: Seq<Node>, after: Seq<Node>, k: nat)
    requires
        n0.is_prefix_of(before),
        pending(before.skip(n0.len() as int), 1) == Some(k),
        k >= 1,
        extends_by_pattern(before, after),
    ensures
        n0.is_prefix_of(after),
        pending(after.skip(n0.len() as int), 1) == Some((k - 1) as nat),
{
    lemma_grown(n0, before, after, n0.len() as int);
    lemma_pending_pattern(before.skip(n0.len() as int), after.skip(before.len() as int), k);
}

/// All that was to be read has been read.
pub proof fn lemma_grow_done(n0: Seq<Node>, after: Seq<Node>)
    requires
        n0.is_prefix_of(after),
        pending(after.skip(n0.len() as int), 1) == Some(0nat),
    ensures
        extends_by_pattern(n0, after),
{
    lemma_pending_encodes(after.skip(n0.len() as int), 1);
}

proof fn lemma_specialize_origin(m: Seq<Seq<Node>>, k: nat, a: nat, r2: int)
    requires
        0 <= r2 < specialize(m, k, a).len(),
    ensures
        exists|r: int|
            0 <= r < m.len() && #[trigger] origin_of(m[r], specialize(m, k, a)[r2], k, a),
    decreases m.len(),
{
    let p = specialize(m.drop_last(), k, a);
    if r2 < p.len() {
        lemma_specialize_origin(m.drop_last(), k, a, r2);
        let r = choose|r: int|
            0 <= r < m.drop_last().len() && #[trigger] origin_of(m.drop_last()[r], p[r2], k, a);
        assert(m[r] == m.drop_last()[r]);
        assert(specialize(m, k, a)[r2] == p[r2]);
        assert(origin_of(m[r], specialize(m, k, a)[r2], k, a));
    } else {
        assert(origin_of(m[m.len() - 1], specialize(m, k, a)[r2], k, a));
    }
}

/// A specialized row comes from a row whose first pattern is a wildcard or
/// the constructor `k`.
pub open spec fn origin_of(row: Seq<Node>, srow: Seq<Node>, k: nat, a: nat) -> bool {
    ||| head(row) is Any && srow == anys(a) + rest(row)
    ||| head(row) matches Node::Con { idx, .. } && idx == k && srow == rest(row)
}

proof fn lemma_default_origin(m: Seq<Seq<Node>>, r2: int)
    requires
        0 <= r2 < default_rows(m).len(),
    ensures
        exists|r: int|
            0 <= r < m.len() && head(m[r]) is Any && #[trigger] rest(m[r]) == default_rows(m)[r2],
    decreases m.len(),
{
    let p = default_rows(m.drop_last());
    if r2 < p.len() {
        lemma_default_origin(m.drop_last(), r2);
        let r = choose|r: int|
            0 <= r < m.drop_last().len() && head(m.drop_last()[r]) is Any && #[trigger] rest(
                m.drop_last()[r],
            ) == p[r2];
        assert(m[r] == m.drop_last()[r]);
        assert(default_rows(m)[r2] == p[r2]);
        assert(rest(m[r]) == default_rows(m)[r2]);
    } else {
        assert(rest(m[m.len() - 1]) == default_rows(m)[r2]);
    }
}

proof fn lemma_family_witness(m: Seq<Seq<Node>>)
    requires
        family(m) > 0,
    ensures
        exists|r: int|
            0 <= r < m.len() && (#[trigger] head(m[r]) matches Node::Con { count, .. } && count
                == family(m)),
    decreases m.len(),
{
    match head(m[0]) {
        Node::Con { .. } => {
            assert(head(m[0]) matches Node::Con { count, .. } && count == family(m));
        },
        _ => {
            lemma_family_witness(m.skip(1));
            let r = choose|r: int|
                0 <= r < m.skip(1).len() && (#[trigger] head(m.skip(1)[r]) matches Node::Con {
                    count,
                    ..
                } && count == family(m.skip(1)));
            assert(m.skip(1)[r] == m[r + 1]);
            assert(head(m[r + 1]) matches Node::Con { count, .. } && count == family(m));
        },
    }
}

proof fn lemma_arity_witness(m: Seq<Seq<Node>>, k: nat)
    requires
        arity_of(m, k) is Some,
    ensures
        exists|r: int|
            0 <= r < m.len() && (#[trigger] head(m[r]) matches Node::Con { idx, arity, .. } && idx
                == k && arity == arity_of(m, k)->0),
    decreases m.len(),
{
    match head(m[0]) {
        Node::Con { idx, .. } => {
            if idx == k {
                assert(head(m[0]) matches Node::Con { idx, arity, .. } && idx == k && arity
                    == arity_of(m, k)->0);
            } else {
                lemma_arity_witness(m.skip(1), k);
                let r = choose|r: int|
                    0 <= r < m.skip(1).len() && (#[trigger] head(m.skip(1)[r]) matches Node::Con {
                        idx,
                        arity,
                        ..
                    } && idx == k && arity == arity_of(m.skip(1), k)->0);
                assert(m.skip(1)[r] == m[r + 1]);
                assert(head(m[r + 1]) matches Node::Con { idx, arity, .. } && idx == k && arity
                    == arity_of(m, k)->0);
            }
        },
        _ => {
            lemma_arity_witness(m.skip(1), k);
            let r = choose|r: int|
                0 <= r < m.skip(1).len() && (#[trigger] head(m.skip(1)[r]) matches Node::Con {
                    idx,
                    arity,
                    ..
                } && idx == k && arity == arity_of(m.skip(1), k)->0);
            assert(m.skip(1)[r] == m[r + 1]);
            assert(head(m[r + 1]) matches Node::Con { idx, arity, .. } && idx == k && arity
                == arity_of(m, k)->0);
        },
    }
}

proof fn lemma_useful_from_branch(m: Seq<Seq<Node>>, n: nat, fuel: nat, k0: nat, k: nat)
    requires
        useful_from(m, n, fuel, k0) == Some(false),
        fuel > 0,
        n > 0,
        k0 <= k < family(m),
    ensures
        ({
            let a = match arity_of(m, k) {
                Some(a) => a,
                None => 0,
            };
            a + n - 1 <= usize::MAX && useful(specialize(m, k, a), (a + n - 1) as nat, (fuel - 1) as nat)
                == Some(false)
        }),
    decreases k - k0,
{
    if k0 < k {
        lemma_useful_from_branch(m, n, fuel, k0 + 1, k);
    }
}

proof fn lemma_anys_step(a: nat, tail: Seq<Node>)
    requires
        a > 0,
    ensures
        (anys(a) + tail).len() > 0,
        (anys(a) + tail)[0] == Node::Any,
        (anys(a) + tail).skip(1) == anys((a - 1) as nat) + tail,
{
    assert((anys(a) + tail).skip(1) =~= anys((a - 1) as nat) + tail);
}

proof fn lemma_encodes_anys(a: nat, tail: Seq<Node>, n: nat)
    requires
        encodes(tail, n),
    ensures
        encodes(anys(a) + tail, n + a),
    decreases a,
{
    if a == 0 {
        assert(anys(0) + tail =~= tail);
    } else {
        lemma_anys_step(a, tail);
        lemma_encodes_anys((a - 1) as nat, tail, n);
    }
}

proof fn lemma_conforms_anys(a: nat, tail: Seq<Node>, args: Seq<Val>, vs: Seq<Val>)
    requires
        args.len() == a,
    ensures
        conforms(anys(a) + tail, args + vs) == conforms(tail, vs),
    decreases a,
{
    if a == 0 {
        assert(anys(0) + tail =~= tail);
        assert(args + vs =~= vs);
    } else {
        lemma_anys_step(a, tail);
        assert((args + vs).skip(1) =~= args.skip(1) + vs);
        lemma_conforms_anys((a - 1) as nat, tail, args.skip(1), vs);
    }
}

proof fn lemma_matches_anys(a: nat, tail: Seq<Node>, args: Seq<Val>, vs: Seq<Val>)
    requires
        args.len() == a,
    ensures
        matches_vals(anys(a) + tail, args + vs) == matches_vals(tail, vs),
    decreases a,
{
    if a == 0 {
        assert(anys(0) + tail =~= tail);
        assert(args + vs =~= vs);
    } else {
        lemma_anys_step(a, tail);
        assert((args + vs).skip(1) =~= args.skip(1) + vs);
        lemma_matches_anys((a - 1) as nat, tail, args.skip(1), vs);
    }
}

/// When the search finds every value matched, it is: any `n` values of the
/// shapes that the patterns expect are matched by some row.
pub proof fn lemma_exhaustive_sound(m: Seq<Seq<Node>>, n: nat, fuel: nat, vals: Seq<Val>)
    requires
        useful(m, n, fuel) == Some(false),
        vals.len() == n,
        forall|r: int| 0 <= r < m.len() ==> encodes(#[trigger] m[r], n) && conforms(m[r], vals),
    ensures
        exists|r: int| 0 <= r < m.len() && matches_vals(#[trigger] m[r], vals),
    decreases fuel,
{
    if n == 0 {
        assert(m.len() > 0);
        assert(m[0].len() == 0);
        assert(matches_vals(m[0], vals));
    } else if complete(m) {
        lemma_family_witness(m);
        let r0 = choose|r: int|
            0 <= r < m.len() && (#[trigger] head(m[r]) matches Node::Con { count, .. } && count
                == family(m));
        assert(m[r0].len() > 0);
        let v0 = vals[0];
        assert(v0 is Con);
        let k = v0->Con_0;
        let args = v0->Con_2;
        assert(k < family(m));
        assert(arity_of(m, k) is Some);
        let a = arity_of(m, k)->0;
        lemma_arity_witness(m, k);
        let r1 = choose|r: int|
            0 <= r < m.len() && (#[trigger] head(m[r]) matches Node::Con { idx, arity, .. } && idx
                == k && arity == a);
        assert(m[r1].len() > 0);
        assert(args.len() == a);
        lemma_useful_from_branch(m, n, fuel, 0, k);
        let sm = specialize(m, k, a);
        let vals2 = args + vals.skip(1);
        let n2 = (a + n - 1) as nat;
        assert forall|r2: int| 0 <= r2 < sm.len() implies encodes(#[trigger] sm[r2], n2) && conforms(
            sm[r2],
            vals2,
        ) by {
            lemma_specialize_origin(m, k, a, r2);
            let r = choose|r: int| 0 <= r < m.len() && #[trigger] origin_of(m[r], sm[r2], k, a);
            assert(encodes(m[r], n) && conforms(m[r], vals));
            assert(m[r].len() > 0);
            if head(m[r]) is Any {
                lemma_encodes_anys(a, rest(m[r]), (n - 1) as nat);
                lemma_conforms_anys(a, rest(m[r]), args, vals.skip(1));
            } else {
            }
        }
        lemma_exhaustive_sound(sm, n2, (fuel - 1) as nat, vals2);
        let r2 = choose|r2: int| 0 <= r2 < sm.len() && matches_vals(#[trigger] sm[r2], vals2);
        lemma_specialize_origin(m, k, a, r2);
        let r = choose|r: int| 0 <= r < m.len() && #[trigger] origin_of(m[r], sm[r2], k, a);
        assert(encodes(m[r], n));
        assert(m[r].len() > 0);
        if head(m[r]) is Any {
            lemma_matches_anys(a, rest(m[r]), args, vals.skip(1));
        }
        assert(matches_vals(m[r], vals));
    } else {
        let d = default_rows(m);
        let vals2 = vals.skip(1);
        assert forall|r2: int| 0 <= r2 < d.len() implies encodes(#[trigger] d[r2], (n - 1) as nat)
            && conforms(d[r2], vals2) by {
            lemma_default_origin(m, r2);
            let r = choose|r: int|
                0 <= r < m.len() && head(m[r]) is Any && #[trigger] rest(m[r]) == d[r2];
            assert(encodes(m[r], n) && conforms(m[r], vals));
        }
        lemma_exhaustive_sound(d, (n - 1) as nat, (fuel - 1) as nat, vals2);
        let r2 = choose|r2: int| 0 <= r2 < d.len() && matches_vals(#[trigger] d[r2], vals2);
        lemma_default_origin(m, r2);
        let r = choose|r: int| 0 <= r < m.len() && head(m[r]) is Any && #[trigger] rest(m[r]) == d[r2];
        assert(encodes(m[r], n));
        assert(matches_vals(m[r], vals));
    }
}

/// The type of a column, as far as patterns tell types apart.
pub enum PatTy {
    /// A type whose values no constructor pattern names.
    Open,
    /// A type of `count` constructors; `args[i]` are the types of the
    /// arguments of constructor `i`.
    Sum(nat, Seq<Seq<PatTy>>),
}

/// The row is patterns, written out in preorder, of the column types `tys`:
/// each constructor pattern is one of its column's type, with that
/// constructor's number of arguments, and its argument patterns are of the
/// argument types.
pub open spec fn row_typed(row: Seq<Node>, tys: Seq<PatTy>) -> bool
    decreases row.len(),
{
    if row.len() == 0 {
        tys.len() == 0
    } else if tys.len() == 0 {
        false
    } else {
        match row[0] {
            Node::Con { idx, count, arity } => match tys[0] {
                PatTy::Sum(c, args) => c == count as nat && idx < count && args.len() == c
                    && args[idx as int].len() == arity && row_typed(
                    row.skip(1),
                    args[idx as int] + tys.skip(1),
                ),
                PatTy::Open => false,
            },
            _ => row_typed(row.skip(1), tys.skip(1)),
        }
    }
}

/// No row matches the values, and the values have the shapes that each
/// row's patterns expect.
pub open spec fn unmatched(m: Seq<Seq<Node>>, vals: Seq<Val>) -> bool {
    &&& forall|r: int| 0 <= r < m.len() ==> conforms(#[trigger] m[r], vals)
    &&& forall|r: int| 0 <= r < m.len() ==> !matches_vals(#[trigger] m[r], vals)
}

proof fn lemma_specialize_image(m: Seq<Seq<Node>>, k: nat, a: nat, r: int)
    requires
        0 <= r < m.len(),
        head(m[r]) is Any || (head(m[r]) matches Node::Con { idx, .. } && idx == k),
    ensures
        exists|r2: int|
            0 <= r2 < specialize(m, k, a).len() && #[trigger] origin_of(
                m[r],
                specialize(m, k, a)[r2],
                k,
                a,
            ),
    decreases m.len(),
{
    let p = specialize(m.drop_last(), k, a);
    let s = specialize(m, k, a);
    if r == m.len() - 1 {
        assert(origin_of(m[r], s[s.len() - 1], k, a));
    } else {
        assert(m.drop_last()[r] == m[r]);
        lemma_specialize_image(m.drop_last(), k, a, r);
        let r2 = choose|r2: int| 0 <= r2 < p.len() && #[trigger] origin_of(m[r], p[r2], k, a);
        assert(s[r2] == p[r2]);
        assert(origin_of(m[r], s[r2], k, a));
    }
}

proof fn lemma_default_image(m: Seq<Seq<Node>>, r: int)
    requires
        0 <= r < m.len(),
        head(m[r]) is Any,
    ensures
        exists|r2: int| 0 <= r2 < default_rows(m).len() && #[trigger] default_rows(m)[r2] == rest(m[r]),
    decreases m.len(),
{
    let p = default_rows(m.drop_last());
    let d = default_rows(m);
    if r == m.len() - 1 {
        assert(d[d.len() - 1] == rest(m[r]));
    } else {
        assert(m.drop_last()[r] == m[r]);
        lemma_default_image(m.drop_last(), r);
        let r2 = choose|r2: int| 0 <= r2 < p.len() && #[trigger] p[r2] == rest(m[r]);
        assert(d[r2] == p[r2]);
    }
}

proof fn lemma_typed_anys(a: nat, tail: Seq<Node>, front: Seq<PatTy>, back: Seq<PatTy>)
    requires
        front.len() == a,
        row_typed(tail, back),
    ensures
        row_typed(anys(a) + tail, front + back),
    decreases a,
{
    if a == 0 {
        assert(anys(0) + tail =~= tail);
        assert(front + back =~= back);
    } else {
        lemma_anys_step(a, tail);
        assert((front + back).skip(1) =~= front.skip(1) + back);
        lemma_typed_anys((a - 1) as nat, tail, front.skip(1), back);
    }
}

proof fn lemma_arity_some(m: Seq<Seq<Node>>, k: nat, r: int)
    requires
        0 <= r < m.len(),
        head(m[r]) matches Node::Con { idx, .. } && idx == k,
    ensures
        arity_of(m, k) is Some,
    decreases m.len(),
{
    if r > 0 {
        match head(m[0]) {
            Node::Con { idx, .. } => {
                if idx != k {
                    assert(m.skip(1)[r - 1] == m[r]);
                    lemma_arity_some(m.skip(1), k, r - 1);
                }
            },
            _ => {
                assert(m.skip(1)[r - 1] == m[r]);
                lemma_arity_some(m.skip(1), k, r - 1);
            },
        }
    }
}

proof fn lemma_family_of_typed(m: Seq<Seq<Node>>, c: nat, r: int)
    requires
        0 <= r < m.len(),
        head(m[r]) is Con,
        forall|q: int|
            0 <= q < m.len() && (#[trigger] head(m[q]) is Con) ==> head(m[q])->Con_count == c,
    ensures
        family(m) == c,
    decreases m.len(),
{
    if !(head(m[0]) is Con) {
        assert(m.skip(1)[r - 1] == m[r]);
        assert forall|q: int|
            0 <= q < m.skip(1).len() && (#[trigger] head(m.skip(1)[q]) is Con) implies head(
            m.skip(1)[q],
        )->Con_count == c by {
            assert(m.skip(1)[q] == m[q + 1]);
        }
        lemma_family_of_typed(m.skip(1), c, r - 1);
    }
}

proof fn lemma_useful_from_true(m: Seq<Seq<Node>>, n: nat, fuel: nat, k0: nat) -> (k: nat)
    requires
        useful_from(m, n, fuel, k0) == Some(true),
    ensures
        fuel > 0,
        n > 0,
        k0 <= k < family(m),
        ({
            let a = match arity_of(m, k) {
                Some(a) => a,
                None => 0,
            };
            a + n - 1 <= usize::MAX && useful(specialize(m, k, a), (a + n - 1) as nat, (fuel - 1) as nat)
                == Some(true)
        }),
    decreases family(m) - k0,
{
    let a = match arity_of(m, k0) {
        Some(a) => a,
        None => 0,
    };
    if useful(specialize(m, k0, a), (a + n - 1) as nat, (fuel - 1) as nat) == Some(true) {
        k0
    } else {
        lemma_useful_from_true(m, n, fuel, k0 + 1)
    }
}

/// When the search reports some value unmatched, there is one: for rows
/// of patterns of the column types `tys`, `n` values, of the shapes that
/// the patterns expect, that no row matches.
pub proof fn lemma_exhaustive_complete(m: Seq<Seq<Node>>, n: nat, fuel: nat, tys: Seq<PatTy>) -> (vals:
    Seq<Val>)
    requires
        useful(m, n, fuel) == Some(true),
        tys.len() == n,
        forall|r: int| 0 <= r < m.len() ==> row_typed(#[trigger] m[r], tys),
    ensures
        vals.len() == n,
        unmatched(m, vals),
    decreases fuel,
{
    if n == 0 {
        Seq::empty()
    } else if complete(m) {
        let k = lemma_useful_from_true(m, n, fuel, 0);
        lemma_family_witness(m);
        let r0 = choose|r: int|
            0 <= r < m.len() && (#[trigger] head(m[r]) matches Node::Con { count, .. } && count
                == family(m));
        assert(m[r0].len() > 0);
        let c = tys[0]->Sum_0;
        let targs = tys[0]->Sum_1;
        assert(tys[0] is Sum && c == family(m) && targs.len() == c);
        assert(arity_of(m, k) is Some);
        let a = arity_of(m, k)->0;
        lemma_arity_witness(m, k);
        let r1 = choose|r: int|
            0 <= r < m.len() && (#[trigger] head(m[r]) matches Node::Con { idx, arity, .. } && idx
                == k && arity == a);
        assert(m[r1].len() > 0);
        assert(targs[k as int].len() == a);
        let sm = specialize(m, k, a);
        let tys2 = targs[k as int] + tys.skip(1);
        assert forall|r2: int| 0 <= r2 < sm.len() implies row_typed(#[trigger] sm[r2], tys2) by {
            lemma_specialize_origin(m, k, a, r2);
            let r = choose|r: int| 0 <= r < m.len() && #[trigger] origin_of(m[r], sm[r2], k, a);
            assert(row_typed(m[r], tys));
            assert(m[r].len() > 0);
            if head(m[r]) is Any {
                lemma_typed_anys(a, rest(m[r]), targs[k as int], tys.skip(1));
            }
        }
        let vals2 = lemma_exhaustive_complete(sm, (a + n - 1) as nat, (fuel - 1) as nat, tys2);
        let front = vals2.take(a as int);
        let back = vals2.skip(a as int);
        assert(front + back =~= vals2);
        let vals = seq![Val::Con(k, c, front)] + back;
        assert(vals.skip(1) =~= back);
        assert forall|r: int| 0 <= r < m.len() implies conforms(#[trigger] m[r], vals)
            && !matches_vals(m[r], vals) by {
            assert(row_typed(m[r], tys));
            assert(m[r].len() > 0);
            match m[r][0] {
                Node::Any => {
                    lemma_specialize_image(m, k, a, r);
                    let r2 = choose|r2: int| 0 <= r2 < sm.len() && #[trigger] origin_of(m[r], sm[r2], k, a);
                    assert(conforms(sm[r2], vals2) && !matches_vals(sm[r2], vals2));
                    lemma_conforms_anys(a, rest(m[r]), front, back);
                    lemma_matches_anys(a, rest(m[r]), front, back);
                },
                Node::Lit => {},
                Node::Con { idx, count, arity } => {
                    if idx as nat == k {
                        lemma_specialize_image(m, k, a, r);
                        let r2 = choose|r2: int| 0 <= r2 < sm.len() && #[trigger] origin_of(m[r], sm[r2], k, a);
                        assert(conforms(sm[r2], vals2) && !matches_vals(sm[r2], vals2));
                    }
                },
            }
        }
        vals
    } else {
        let d = default_rows(m);
        let tys2 = tys.skip(1);
        assert forall|r2: int| 0 <= r2 < d.len() implies row_typed(#[trigger] d[r2], tys2) by {
            lemma_default_origin(m, r2);
            let r = choose|r: int| 0 <= r < m.len() && head(m[r]) is Any && #[trigger] rest(m[r]) == d[r2];
            assert(row_typed(m[r], tys));
            assert(m[r].len() > 0);
        }
        let vals2 = lemma_exhaustive_complete(d, (n - 1) as nat, (fuel - 1) as nat, tys2);
        let v0 = if exists|r: int| 0 <= r < m.len() && #[trigger] head(m[r]) is Con {
            let r0 = choose|r: int| 0 <= r < m.len() && #[trigger] head(m[r]) is Con;
            assert(row_typed(m[r0], tys));
            assert(m[r0].len() > 0);
            let c = tys[0]->Sum_0;
            assert forall|q: int|
                0 <= q < m.len() && (#[trigger] head(m[q]) is Con) implies head(m[q])->Con_count == c by {
                assert(row_typed(m[q], tys));
                assert(m[q].len() > 0);
            }
            lemma_family_of_typed(m, c, r0);
            let k = choose|k: nat| k < family(m) && !(#[trigger] arity_of(m, k) is Some);
            Val::Con(k, c, Seq::empty())
        } else {
            Val::Lit(0)
        };
        let vals = seq![v0] + vals2;
        assert(vals.skip(1) =~= vals2);
        assert forall|r: int| 0 <= r < m.len() implies conforms(#[trigger] m[r], vals)
            && !matches_vals(m[r], vals) by {
            assert(row_typed(m[r], tys));
            assert(m[r].len() > 0);
            match m[r][0] {
                Node::Any => {
                    lemma_default_image(m, r);
                    let r2 = choose|r2: int| 0 <= r2 < d.len() && #[trigger] d[r2] == rest(m[r]);
                    assert(conforms(d[r2], vals2) && !matches_vals(d[r2], vals2));
                },
                Node::Lit => {},
                Node::Con { idx, count, arity } => {
                    assert(head(m[r]) is Con);
                    if v0 is Con && idx as nat == v0->Con_0 {
                        lemma_arity_some(m, v0->Con_0, r);
                    }
                },
            }
        }
        vals
    }
}

proof fn lemma_rows_view_push(m: Seq<Vec<Node>>, r: Vec<Node>)
    ensures
        rows_view(m.push(r)) == rows_view(m).push(r@),
{
    assert(rows_view(m.push(r)) =~= rows_view(m).push(r@));
}

proof fn lemma_take_last(m: Seq<Seq<Node>>, i: int)
    requires
        0 <= i < m.len(),
    ensures
        m.take(i + 1).drop_last() == m.take(i),
        m.take(i + 1).last() == m[i],
{
    assert(m.take(i + 1).drop_last() =~= m.take(i));
}

fn row_rest(row: &Vec<Node>, prefix: Vec<Node>) -> (r: Vec<Node>)
    ensures
        r@ == prefix@ + rest(row@),
{
    let mut r = prefix;
    let ghost p = r@;
    let mut j: usize = 1;
    if row.len() == 0 {
        assert(p + rest(row@) =~= p);
        return r;
    }
    while j < row.len()
        invariant
            1 <= j <= row@.len(),
            r@ == p + row@.subrange(1, j as int),
        decreases row@.len() - j,
    {
        r.push(row[j]);
        assert(row@.subrange(1, j + 1) =~= row@.subrange(1, j as int).push(row@[j as int]));
        j = j + 1;
    }
    assert(row@.subrange(1, row@.len() as int) =~= row@.skip(1));
    r
}

fn wildcards(a: usize) -> (r: Vec<Node>)
    ensures
        r@ == anys(a as nat),
{
    let mut r: Vec<Node> = Vec::new();
    let mut i: usize = 0;
    while i < a
        invariant
            i <= a,
            r@ == anys(i as nat),
        decreases a - i,
    {
        r.push(Node::Any);
        assert(anys((i + 1) as nat) =~= anys(i as nat).push(Node::Any));
        i = i + 1;
    }
    r
}

/// The specialized matrix `specialize(m, k, a)`.
pub fn specialize_rows(m: &Vec<Vec<Node>>, k: usize, a: usize) -> (r: Vec<Vec<Node>>)
    ensures
        rows_view(r@) == specialize(rows_view(m@), k as nat, a as nat),
{
    let ghost mv = rows_view(m@);
    let mut out: Vec<Vec<Node>> = Vec::new();
    let mut i: usize = 0;
    while i < m.len()
        invariant
            i <= m@.len(),
            mv == rows_view(m@),
            rows_view(out@) == specialize(mv.take(i as int), k as nat, a as nat),
        decreases m@.len() - i,
    {
        proof {
            lemma_take_last(mv, i as int);
        }
        let row = &m[i];
        assert(mv[i as int] == row@);
        let first = if row.len() > 0 {
            row[0]
        } else {
            Node::Any
        };
        match first {
            Node::Any => {
                let nr = row_rest(row, wildcards(a));
                proof {
                    lemma_rows_view_push(out@, nr);
                }
                out.push(nr);
            },
            Node::Con { idx, .. } => {
                if idx == k {
                    let nr = row_rest(row, Vec::new());
                    proof {
                        lemma_rows_view_push(out@, nr);
                        assert(Seq::<Node>::empty() + rest(row@) =~= rest(row@));
                    }
                    out.push(nr);
                }
            },
            Node::Lit => {},
        }
        i = i + 1;
    }
    assert(mv.take(m@.len() as int) =~= mv);
    out
}

/// The default matrix `default_rows(m)`.
pub fn default_matrix(m: &Vec<Vec<Node>>) -> (r: Vec<Vec<Node>>)
    ensures
        rows_view(r@) == default_rows(rows_view(m@)),
{
    let ghost mv = rows_view(m@);
    let mut out: Vec<Vec<Node>> = Vec::new();
    let mut i: usize = 0;
    while i < m.len()
        invariant
            i <= m@.len(),
            mv == rows_view(m@),
            rows_view(out@) == default_rows(mv.take(i as int)),
        decreases m@.len() - i,
    {
        proof {
            lemma_take_last(mv, i as int);
        }
        let row = &m[i];
        assert(mv[i as int] == row@);
        let any_head = row.len() == 0 || matches!(row[0], Node::Any);
        if any_head {
            let nr = row_rest(row, Vec::new());
            proof {
                lemma_rows_view_push(out@, nr);
                assert(Seq::<Node>::empty() + rest(row@) =~= rest(row@));
            }
            out.push(nr);
        }
        i = i + 1;
    }
    assert(mv.take(m@.len() as int) =~= mv);
    out
}

proof fn lemma_skip_step(m: Seq<Seq<Node>>, i: int)
    requires
        0 <= i < m.len(),
    ensures
        m.skip(i).len() > 0,
        m.skip(i)[0] == m[i],
        m.skip(i).skip(1) == m.skip(i + 1),
{
    assert(m.skip(i).skip(1) =~= m.skip(i + 1));
}

/// `family(m)`.
pub fn column_family(m: &Vec<Vec<Node>>) -> (r: usize)
    ensures
        r as nat == family(rows_view(m@)),
{
    let ghost mv = rows_view(m@);
    let mut i: usize = 0;
    assert(mv.skip(0) =~= mv);
    while i < m.len()
        invariant
            i <= m@.len(),
            mv == rows_view(m@),
            family(mv) == family(mv.skip(i as int)),
        decreases m@.len() - i,
    {
        proof {
            lemma_skip_step(mv, i as int);
        }
        assert(mv[i as int] == m@[i as int]@);
        if m[i].len() > 0 {
            match m[i][0] {
                Node::Con { count, .. } => {
                    return count;
                },
                _ => {},
            }
        }
        i = i + 1;
    }
    assert(mv.skip(i as int).len() == 0);
    0
}

/// `arity_of(m, k)`.
pub fn column_arity(m: &Vec<Vec<Node>>, k: usize) -> (r: Option<usize>)
    ensures
        r is Some == arity_of(rows_view(m@), k as nat) is Some,
        r is Some ==> r->0 as nat == arity_of(rows_view(m@), k as nat)->0,
{
    let ghost mv = rows_view(m@);
    let mut i: usize = 0;
    assert(mv.skip(0) =~= mv);
    while i < m.len()
        invariant
            i <= m@.len(),
            mv == rows_view(m@),
            arity_of(mv, k as nat) == arity_of(mv.skip(i as int), k as nat),
        decreases m@.len() - i,
    {
        proof {
            lemma_skip_step(mv, i as int);
        }
        assert(mv[i as int] == m@[i as int]@);
        if m[i].len() > 0 {
            match m[i][0] {
                Node::Con { idx, arity, .. } => {
                    if idx == k {
                        return Some(arity);
                    }
                },
                _ => {},
            }
        }
        i = i + 1;
    }
    assert(mv.skip(i as int).len() == 0);
    None
}

/// `complete(m)`.
pub fn column_complete(m: &Vec<Vec<Node>>) -> (r: bool)
    ensures
        r == complete(rows_view(m@)),
{
    let ghost mv = rows_view(m@);
    let f = column_family(m);
    if f == 0 {
        return false;
    }
    let mut k: usize = 0;
    while k < f
        invariant
            k <= f,
            f as nat == family(mv),
            mv == rows_view(m@),
            forall|j: nat| j < k ==> (#[trigger] arity_of(mv, j)) is Some,
        decreases f - k,
    {
        if column_arity(m, k).is_none() {
            assert(!(arity_of(mv, k as nat) is Some));
            return false;
        }
        k = k + 1;
    }
    true
}

/// Decides `useful(m, n, fuel)`: whether some value of the `n` columns of
/// `m` is matched by none of its rows.
pub fn is_useful(m: &Vec<Vec<Node>>, n: usize, fuel: usize) -> (r: Option<bool>)
    ensures
        r == useful(rows_view(m@), n as nat, fuel as nat),
    decreases fuel, 1nat, 0nat,
{
    if fuel == 0 {
        return None;
    }
    if n == 0 {
        return Some(m.len() == 0);
    }
    if column_complete(m) {
        useful_over(m, n, fuel, 0)
    } else {
        let d = default_matrix(m);
        is_useful(&d, n - 1, fuel - 1)
    }
}

/// Decides `useful_from(m, n, fuel, k)`.
fn useful_over(m: &Vec<Vec<Node>>, n: usize, fuel: usize, k: usize) -> (r: Option<bool>)
    requires
        fuel > 0,
        n > 0,
    ensures
        r == useful_from(rows_view(m@), n as nat, fuel as nat, k as nat),
    decreases fuel, 0nat, family(rows_view(m@)) - k,
{
    let f = column_family(m);
    if k >= f {
        return Some(false);
    }
    let a = match column_arity(m, k) {
        Some(a) => a,
        None => 0,
    };
    if a > usize::MAX - (n - 1) {
        return None;
    }
    let s = specialize_rows(m, k, a);
    match is_useful(&s, a + (n - 1), fuel - 1) {
        None => None,
        Some(true) => Some(true),
        Some(false) => useful_over(m, n, fuel, k + 1),
    }
}

} // verus!
