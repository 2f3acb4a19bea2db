use vstd::prelude::*;
use crate::env::{find_label, has_label};
use crate::error::TypeError;
use crate::lexer::copy_name;

verus! {

/// The number of labelled arguments.
pub open spec fn count_labelled(args: Seq<Option<Vec<char>>>) -> nat
    decreases args.len(),
{
    if args.len() == 0 {
        0
    } else {
        count_labelled(args.drop_last()) + if args.last() is Some {
            1nat
        } else {
            0nat
        }
    }
}

/// The number of positions that hold an argument.
pub open spec fn filled(slots: Seq<Option<usize>>) -> nat
    decreases slots.len(),
{
    if slots.len() == 0 {
        0
    } else {
        filled(slots.drop_last()) + if slots.last() is Some {
            1nat
        } else {
            0nat
        }
    }
}

/// Every label of the arguments names a parameter, and no label is given
/// twice.
pub open spec fn labels_ok(
    labels: Seq<Option<Vec<char>>>,
    arity: nat,
    args: Seq<Option<Vec<char>>>,
) -> bool {
    &&& forall|j: int|
        0 <= j < args.len() && #[trigger] args[j] is Some ==> labels.len() == arity && exists|i: int|
            0 <= i < labels.len() && has_label(labels, i, args[j]->0@)
    &&& forall|j1: int, j2: int|
        0 <= j1 < j2 < args.len() && #[trigger] args[j1] is Some && #[trigger] args[j2] is Some
            ==> args[j1]->0@ != args[j2]->0@
}

/// Argument `j` is placed at some position.
pub open spec fn placed(slots: Seq<Option<usize>>, j: int) -> bool {
    exists|i: int| 0 <= i < slots.len() && #[trigger] slots[i] == Some(j as usize)
}

/// `slots` places the arguments as a call does: position `i` holds argument
/// `slots[i]`, if any. Each argument is placed once; a labelled argument at
/// the first parameter with its label; the unlabelled ones, in order, at the
/// first positions that no labelled argument takes.
pub open spec fn placement(
    labels: Seq<Option<Vec<char>>>,
    args: Seq<Option<Vec<char>>>,
    slots: Seq<Option<usize>>,
) -> bool {
    &&& forall|i: int| 0 <= i < slots.len() ==> (#[trigger] slots[i] matches Some(j) ==> j < args.len())
    &&& forall|i1: int, i2: int|
        0 <= i1 < slots.len() && 0 <= i2 < slots.len() && i1 != i2 && #[trigger] slots[i1] is Some
            ==> #[trigger] slots[i2] != slots[i1]
    &&& forall|j: int| 0 <= j < args.len() ==> #[trigger] placed(slots, j)
    &&& forall|i: int|
        0 <= i < slots.len() && #[trigger] slots[i] is Some && args[slots[i]->0 as int] is Some ==> {
            &&& has_label(labels, i, args[slots[i]->0 as int]->0@)
            &&& forall|k: int| 0 <= k < i ==> !has_label(labels, k, args[slots[i]->0 as int]->0@)
        }
    &&& forall|i1: int, i2: int|
        0 <= i1 < i2 < slots.len() && #[trigger] slots[i1] is Some && #[trigger] slots[i2] is Some
            && args[slots[i1]->0 as int] is None && args[slots[i2]->0 as int] is None
            ==> slots[i1]->0 < slots[i2]->0
    &&& forall|i1: int, i2: int|
        0 <= i1 < i2 < slots.len() && #[trigger] slots[i1] is None && #[trigger] slots[i2] is Some
            ==> args[slots[i2]->0 as int] is Some
}

proof fn lemma_filled_bound(s: Seq<Option<usize>>)
    ensures
        filled(s) <= s.len(),
        filled(s) == s.len() ==> forall|i: int| 0 <= i < s.len() ==> #[trigger] s[i] is Some,
        (forall|i: int| 0 <= i < s.len() ==> #[trigger] s[i] is Some) ==> filled(s) == s.len(),
    decreases s.len(),
{
    if s.len() > 0 {
        lemma_filled_bound(s.drop_last());
        if filled(s) == s.len() {
            assert forall|i: int| 0 <= i < s.len() implies #[trigger] s[i] is Some by {
                if i < s.len() - 1 {
                    assert(s.drop_last()[i] == s[i]);
                }
            }
        }
        if forall|i: int| 0 <= i < s.len() ==> #[trigger] s[i] is Some {
            assert forall|i: int| 0 <= i < s.drop_last().len() implies #[trigger] s.drop_last()[i] is Some by {
                assert(s.drop_last()[i] == s[i]);
            }
        }
    }
}

proof fn lemma_filled_set(s: Seq<Option<usize>>, i: int, v: usize)
    requires
        0 <= i < s.len(),
        s[i] is None,
    ensures
        filled(s.update(i, Some(v))) == filled(s) + 1,
    decreases s.len(),
{
    if i == s.len() - 1 {
        assert(s.update(i, Some(v)).drop_last() =~= s.drop_last());
    } else {
        lemma_filled_set(s.drop_last(), i, v);
        assert(s.update(i, Some(v)).drop_last() =~= s.drop_last().update(i, Some(v)));
    }
}

proof fn lemma_count_step(args: Seq<Option<Vec<char>>>, j: int)
    requires
        0 <= j < args.len(),
    ensures
        count_labelled(args.take(j + 1)) == count_labelled(args.take(j)) + if args[j] is Some {
            1nat
        } else {
            0nat
        },
{
    assert(args.take(j + 1).drop_last() =~= args.take(j));
}

proof fn lemma_count_mono(args: Seq<Option<Vec<char>>>, j: int, m: int)
    requires
        0 <= j <= m <= args.len(),
    ensures
        count_labelled(args.take(j)) <= count_labelled(args.take(m)),
        count_labelled(args.take(m)) - count_labelled(args.take(j)) <= m - j,
    decreases m - j,
{
    if j < m {
        lemma_count_mono(args, j, m - 1);
        lemma_count_step(args, m - 1);
    }
}

proof fn lemma_count_bound(args: Seq<Option<Vec<char>>>)
    ensures
        count_labelled(args) <= args.len(),
    decreases args.len(),
{
    if args.len() > 0 {
        lemma_count_bound(args.drop_last());
    }
}

/// What holds of the positions once the labelled arguments among the first
/// `j` are placed.
pub open spec fn labelled_placed(
    labels: Seq<Option<Vec<char>>>,
    args: Seq<Option<Vec<char>>>,
    slots: Seq<Option<usize>>,
    j: int,
) -> bool {
    &&& filled(slots) == count_labelled(args.take(j))
    &&& forall|i: int|
        0 <= i < slots.len() ==> (#[trigger] slots[i] matches Some(x) ==> x < j && args[x as int] is Some)
    &&& forall|i1: int, i2: int|
        0 <= i1 < slots.len() && 0 <= i2 < slots.len() && i1 != i2 && #[trigger] slots[i1] is Some
            ==> #[trigger] slots[i2] != slots[i1]
    &&& forall|x: int| 0 <= x < j && #[trigger] args[x] is Some ==> placed(slots, x)
    &&& forall|i: int|
        0 <= i < slots.len() && #[trigger] slots[i] is Some ==> {
            &&& has_label(labels, i, args[slots[i]->0 as int]->0@)
            &&& forall|k: int| 0 <= k < i ==> !has_label(labels, k, args[slots[i]->0 as int]->0@)
        }
}

/// The labels of the first `j` arguments name parameters and are distinct.
pub open spec fn labels_ok_upto(
    labels: Seq<Option<Vec<char>>>,
    arity: nat,
    args: Seq<Option<Vec<char>>>,
    j: int,
) -> bool {
    labels_ok(labels, arity, args.take(j))
}

/// Places the labelled arguments, each at the first parameter with its
/// label; fails when a label names no parameter or is given twice.
fn place_labelled(
    labels: &Vec<Option<Vec<char>>>,
    arity: usize,
    arg_labels: &Vec<Option<Vec<char>>>,
) -> (r: Result<Vec<Option<usize>>, TypeError>)
    ensures
        r is Ok <==> labels_ok(labels@, arity as nat, arg_labels@),
        r matches Ok(slots) ==> slots@.len() == arity && labelled_placed(
            labels@,
            arg_labels@,
            slots@,
            arg_labels@.len() as int,
        ),
{
    let ghost args = arg_labels@;
    let n = arg_labels.len();
    let mut slots: Vec<Option<usize>> = Vec::new();
    let mut k: usize = 0;
    while k < arity
        invariant
            k <= arity,
            slots@.len() == k,
            forall|i: int| 0 <= i < k ==> #[trigger] slots@[i] is None,
            filled(slots@) == 0,
        decreases arity - k,
    {
        let ghost before = slots@;
        slots.push(None);
        assert(slots@.drop_last() =~= before);
        k = k + 1;
    }
    assert(args.take(0) =~= Seq::<Option<Vec<char>>>::empty());
    let mut j: usize = 0;
    while j < n
        invariant
            n == arg_labels@.len(),
            args == arg_labels@,
            j <= n,
            slots@.len() == arity,
            labelled_placed(labels@, args, slots@, j as int),
            labels_ok_upto(labels@, arity as nat, args, j as int),
        decreases n - j,
    {
        proof {
            lemma_count_step(args, j as int);
        }
        let ghost tj = args.take(j as int);
        let ghost tj1 = args.take(j + 1);
        assert forall|x: int| 0 <= x < j implies tj1[x] == tj[x] && tj[x] == args[x] by {}
        assert(tj1[j as int] == args[j as int]);
        match &arg_labels[j] {
            Some(l) => {
                if labels.len() != arity {
                    assert(tj1[j as int] is Some);
                    assert(!labels_ok(labels@, arity as nat, args)) by {
                        assert(args[j as int] is Some);
                    }
                    return Err(TypeError::UnknownLabel(copy_name(l)));
                }
                match find_label(labels, l) {
                    Some(idx) => {
                        if slots[idx].is_some() {
                            proof {
                                let x = slots@[idx as int]->0 as int;
                                assert(x < j && args[x] is Some);
                                assert(has_label(labels@, idx as int, args[x]->0@));
                                assert(args[x]->0@ == l@);
                                assert(args[j as int] is Some);
                                assert(!labels_ok(labels@, arity as nat, args));
                            }
                            return Err(TypeError::DuplicateArgument(copy_name(l)));
                        }
                        let ghost before = slots@;
                        proof {
                            lemma_filled_set(slots@, idx as int, j);
                        }
                        slots.set(idx, Some(j));
                        assert forall|x: int|
                            0 <= x < j + 1 && #[trigger] args[x] is Some implies placed(slots@, x) by {
                            if x == j {
                                assert(slots@[idx as int] == Some(x as usize));
                            } else {
                                assert(placed(before, x));
                                let i = choose|i: int|
                                    0 <= i < arity && #[trigger] before[i] == Some(x as usize);
                                assert(slots@[i] == before[i]);
                            }
                        }
                        assert forall|x1: int, x2: int|
                            0 <= x1 < x2 < tj1.len() && #[trigger] tj1[x1] is Some
                                && #[trigger] tj1[x2] is Some implies tj1[x1]->0@ != tj1[x2]->0@ by {
                            if x2 == j && tj1[x1]->0@ == tj1[x2]->0@ {
                                assert(placed(before, x1));
                                let i = choose|i: int|
                                    0 <= i < arity && #[trigger] before[i] == Some(x1 as usize);
                                assert(has_label(labels@, i, l@));
                                assert(i == idx);
                            }
                        }
                    },
                    None => {
                        assert(!labels_ok(labels@, arity as nat, args)) by {
                            assert(args[j as int] is Some);
                        }
                        return Err(TypeError::UnknownLabel(copy_name(l)));
                    },
                }
            },
            None => {},
        }
        j = j + 1;
    }
    assert(args.take(n as int) =~= args);
    Ok(slots)
}

/// Places the unlabelled arguments, in order, at the positions that the
/// labelled ones left free.
fn place_unlabelled(
    labels: &Vec<Option<Vec<char>>>,
    arg_labels: &Vec<Option<Vec<char>>>,
    slots: Vec<Option<usize>>,
) -> (r: Vec<Option<usize>>)
    requires
        arg_labels@.len() <= slots@.len(),
        labelled_placed(labels@, arg_labels@, slots@, arg_labels@.len() as int),
    ensures
        r@.len() == slots@.len(),
        filled(r@) == arg_labels@.len(),
        placement(labels@, arg_labels@, r@),
{
    let ghost args = arg_labels@;
    let n = arg_labels.len();
    let arity = slots.len();
    let mut slots = slots;
    assert(args.take(n as int) =~= args);
    assert(args.take(0) =~= Seq::<Option<Vec<char>>>::empty());
    let mut pos: usize = 0;
    let mut j: usize = 0;
    while j < n
        invariant
            n == arg_labels@.len(),
            args == arg_labels@,
            n <= arity,
            j <= n,
            pos <= arity,
            slots@.len() == arity,
            filled(slots@) == count_labelled(args) + (j - count_labelled(args.take(j as int))),
            forall|i: int| 0 <= i < pos ==> #[trigger] slots@[i] is Some,
            forall|i: int|
                0 <= i < arity ==> (#[trigger] slots@[i] matches Some(x) ==> x < n && (args[x as int]
                    is None ==> x < j && i <= pos)),
            forall|i1: int, i2: int|
                0 <= i1 < arity && 0 <= i2 < arity && i1 != i2 && #[trigger] slots@[i1] is Some
                    ==> #[trigger] slots@[i2] != slots@[i1],
            forall|x: int| 0 <= x < n && #[trigger] args[x] is Some ==> placed(slots@, x),
            forall|x: int| 0 <= x < j && #[trigger] args[x] is None ==> placed(slots@, x),
            forall|i: int|
                0 <= i < arity && #[trigger] slots@[i] is Some && args[slots@[i]->0 as int] is Some ==> {
                    &&& has_label(labels@, i, args[slots@[i]->0 as int]->0@)
                    &&& forall|k: int| 0 <= k < i ==> !has_label(labels@, k, args[slots@[i]->0 as int]->0@)
                },
            forall|i1: int, i2: int|
                0 <= i1 < i2 < arity && #[trigger] slots@[i1] is Some && #[trigger] slots@[i2] is Some
                    && args[slots@[i1]->0 as int] is None && args[slots@[i2]->0 as int] is None
                    ==> slots@[i1]->0 < slots@[i2]->0,
        decreases n - j,
    {
        proof {
            lemma_count_step(args, j as int);
        }
        if arg_labels[j].is_none() {
            while pos < arity && slots[pos].is_some()
                invariant
                    pos <= arity,
                    slots@.len() == arity,
                    forall|i: int| 0 <= i < pos ==> #[trigger] slots@[i] is Some,
                decreases arity - pos,
            {
                pos = pos + 1;
            }
            proof {
                if pos >= arity {
                    lemma_filled_bound(slots@);
                    lemma_count_mono(args, j + 1, n as int);
                    assert(false);
                }
            }
            let ghost before = slots@;
            proof {
                lemma_filled_set(slots@, pos as int, j);
            }
            slots.set(pos, Some(j));
            assert forall|x: int| 0 <= x < n && #[trigger] args[x] is Some implies placed(slots@, x) by {
                assert(placed(before, x));
                let i = choose|i: int| 0 <= i < arity && #[trigger] before[i] == Some(x as usize);
                assert(slots@[i] == before[i]);
            }
            assert forall|x: int| 0 <= x < j + 1 && #[trigger] args[x] is None implies placed(slots@, x) by {
                if x == j {
                    assert(slots@[pos as int] == Some(x as usize));
                } else {
                    assert(placed(before, x));
                    let i = choose|i: int| 0 <= i < arity && #[trigger] before[i] == Some(x as usize);
                    assert(slots@[i] == before[i]);
                }
            }
        }
        j = j + 1;
    }
    proof {
        lemma_count_bound(args);
        assert forall|x: int| 0 <= x < n implies #[trigger] placed(slots@, x) by {
            if args[x] is Some {
            } else {
            }
        }
        assert forall|i1: int, i2: int|
            0 <= i1 < i2 < arity && #[trigger] slots@[i1] is None && #[trigger] slots@[i2] is Some
            implies args[slots@[i2]->0 as int] is Some by {
            if args[slots@[i2]->0 as int] is None {
                assert(i2 <= pos);
                assert(slots@[i1] is Some);
            }
        }
    }
    slots
}

/// Places call arguments in parameter order. Labelled arguments go to the
/// first parameter with their label, the others fill the remaining
/// positions in order. With `allow_missing`, positions may stay empty.
pub fn place_args(
    labels: &Vec<Option<Vec<char>>>,
    arity: usize,
    arg_labels: &Vec<Option<Vec<char>>>,
    allow_missing: bool,
) -> (r: Result<Vec<Option<usize>>, TypeError>)
    ensures
        r is Ok <==> arg_labels@.len() <= arity && (allow_missing || arg_labels@.len() == arity)
            && labels_ok(labels@, arity as nat, arg_labels@),
        r matches Ok(slots) ==> {
            &&& slots@.len() == arity
            &&& placement(labels@, arg_labels@, slots@)
            &&& !allow_missing ==> forall|i: int| 0 <= i < arity ==> #[trigger] slots@[i] is Some
        },
{
    let n = arg_labels.len();
    if n > arity || (!allow_missing && n != arity) {
        return Err(TypeError::IncorrectArity { expected: arity, given: n });
    }
    let slots = place_labelled(labels, arity, arg_labels)?;
    let slots = place_unlabelled(labels, arg_labels, slots);
    proof {
        lemma_filled_bound(slots@);
    }
    Ok(slots)
}

/// Unlabelled arguments filling every parameter go to them in order.
pub proof fn lemma_unlabelled_in_order(
    labels: Seq<Option<Vec<char>>>,
    args: Seq<Option<Vec<char>>>,
    slots: Seq<Option<usize>>,
)
    requires
        placement(labels, args, slots),
        slots.len() == args.len(),
        forall|i: int| 0 <= i < slots.len() ==> #[trigger] slots[i] is Some,
        forall|j: int| 0 <= j < args.len() ==> #[trigger] args[j] is None,
    ensures
        forall|i: int| 0 <= i < slots.len() ==> #[trigger] slots[i] == Some(i as usize),
{
    assert forall|i: int| 0 <= i < slots.len() implies #[trigger] slots[i] == Some(i as usize) by {
        lemma_slot_at_least(labels, args, slots, i);
        lemma_slot_at_most(labels, args, slots, i);
    }
}

proof fn lemma_slot_at_least(
    labels: Seq<Option<Vec<char>>>,
    args: Seq<Option<Vec<char>>>,
    slots: Seq<Option<usize>>,
    i: int,
)
    requires
        placement(labels, args, slots),
        slots.len() == args.len(),
        forall|k: int| 0 <= k < slots.len() ==> #[trigger] slots[k] is Some,
        forall|j: int| 0 <= j < args.len() ==> #[trigger] args[j] is None,
        0 <= i < slots.len(),
    ensures
        slots[i]->0 >= i,
    decreases i,
{
    if i > 0 {
        lemma_slot_at_least(labels, args, slots, i - 1);
        assert(slots[i - 1] is Some && slots[i] is Some);
        assert(args[slots[i - 1]->0 as int] is None);
        assert(args[slots[i]->0 as int] is None);
    }
}

proof fn lemma_slot_at_most(
    labels: Seq<Option<Vec<char>>>,
    args: Seq<Option<Vec<char>>>,
    slots: Seq<Option<usize>>,
    i: int,
)
    requires
        placement(labels, args, slots),
        slots.len() == args.len(),
        forall|k: int| 0 <= k < slots.len() ==> #[trigger] slots[k] is Some,
        forall|j: int| 0 <= j < args.len() ==> #[trigger] args[j] is None,
        0 <= i < slots.len(),
    ensures
        slots[i]->0 <= i,
    decreases slots.len() - i,
{
    assert(slots[i] is Some);
    if i < slots.len() - 1 {
        lemma_slot_at_most(labels, args, slots, i + 1);
        assert(slots[i + 1] is Some);
        assert(args[slots[i]->0 as int] is None);
        assert(args[slots[i + 1]->0 as int] is None);
    }
}

} // verus!
