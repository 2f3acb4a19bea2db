use vstd::prelude::*;

verus! {

/// Why a module or an expression does not type check.
#[allow(inconsistent_fields)]
pub enum TypeError {
    UnknownVariable(Vec<char>),
    UnknownType(Vec<char>),
    UnknownModule(Vec<char>),
    UnknownModuleValue(Vec<char>),
    UnknownRecordField(Vec<char>),
    UnknownLabel(Vec<char>),
    DuplicateArgument(Vec<char>),
    NotAConstructor(Vec<char>),
    /// Two types that had to be equal; both as printed.
    TypeMismatch { expected: Vec<char>, given: Vec<char> },
    RecursiveType,
    IncorrectArity { expected: usize, given: usize },
    IncorrectTypeArity { name: Vec<char>, expected: usize, given: usize },
    NotATuple,
    OutOfBoundsTupleIndex(usize),
    NotAFunction,
    /// A record update whose subject is not known to be built with the
    /// constructor of the update.
    UnsafeRecordUpdate,
    /// A `_` outside the arguments of a call.
    UnexpectedHole,
    /// An unlabelled field after a labelled one.
    PositionalAfterLabelled,
    /// The alternatives of a clause bind different variables.
    AlternativeBindings(Vec<char>),
    /// A body-less function with no implementation for the target.
    MissingImplementation(Vec<char>),
    /// Two top level values of a module with the same name.
    DuplicateName(Vec<char>),
    /// Parsing stopped at the given character or token position.
    Syntax(usize),
    /// The clauses of a case expression leave some value unmatched.
    InexhaustiveCase,
    /// The pattern of a `let` does not match every value of its type.
    InexhaustiveLet,
    /// The input nests deeper than the checker allows.
    TooDeep,
}

fn push_str(out: &mut Vec<char>, s: &str)
    ensures
        final(out)@ == old(out)@ + s@,
{
    let ghost start = out@;
    let n = s.unicode_len();
    let mut i: usize = 0;
    while i < n
        invariant
            n == s@.len(),
            i <= n,
            out@ == start + s@.take(i as int),
        decreases n - i,
    {
        out.push(s.get_char(i));
        assert(s@.take(i + 1) =~= s@.take(i as int).push(s@[i as int]));
        i = i + 1;
    }
    assert(s@.take(n as int) =~= s@);
}

fn push_name(out: &mut Vec<char>, s: &Vec<char>)
    ensures
        final(out)@ == old(out)@ + s@,
{
    let ghost start = out@;
    let mut i: usize = 0;
    while i < s.len()
        invariant
            i <= s@.len(),
            out@ == start + s@.take(i as int),
        decreases s@.len() - i,
    {
        out.push(s[i]);
        assert(s@.take(i + 1) =~= s@.take(i as int).push(s@[i as int]));
        i = i + 1;
    }
    assert(s@.take(s@.len() as int) =~= s@);
}

/// The decimal digits of `n`.
pub open spec fn decimal(n: nat) -> Seq<char>
    decreases n,
{
    if n < 10 {
        seq![((n + 48) as u8) as char]
    } else {
        decimal(n / 10) + seq![((n % 10 + 48) as u8) as char]
    }
}

fn push_number(out: &mut Vec<char>, n: usize)
    ensures
        final(out)@ == old(out)@ + decimal(n as nat),
    decreases n,
{
    let ghost start = out@;
    if n >= 10 {
        push_number(out, n / 10);
    }
    let d: u8 = (n % 10) as u8;
    out.push((d + 48u8) as char);
    proof {
        assert((d + 48u8) as u8 == ((n as nat % 10 + 48) as u8));
        if n < 10 {
            assert(n as nat % 10 == n as nat);
            assert(out@ =~= start + decimal(n as nat));
        } else {
            assert(out@ =~= start + decimal(n as nat));
        }
    }
}

/// The description of an error, as `describe_error` writes it.
pub open spec fn description(e: TypeError) -> Seq<char> {
    match e {
        TypeError::UnknownVariable(n) => "Unknown variable: "@ + n@,
        TypeError::UnknownType(n) => "Unknown type: "@ + n@,
        TypeError::UnknownModule(n) => "Unknown module: "@ + n@,
        TypeError::UnknownModuleValue(n) => "Unknown module value: "@ + n@,
        TypeError::UnknownRecordField(n) => "Unknown record field: "@ + n@,
        TypeError::UnknownLabel(n) => "Unknown label: "@ + n@,
        TypeError::DuplicateArgument(n) => "Duplicate argument: "@ + n@,
        TypeError::NotAConstructor(n) => "Not a record constructor: "@ + n@,
        TypeError::TypeMismatch { expected, given } => "Type mismatch: expected type "@
            + expected@ + ", found type "@ + given@,
        TypeError::RecursiveType => "Recursive type"@,
        TypeError::IncorrectArity { expected, given } => "Incorrect arity: expected "@ + decimal(
            expected as nat,
        ) + " arguments, got "@ + decimal(given as nat),
        TypeError::IncorrectTypeArity { name, expected, given } => "Incorrect type arity for "@
            + name@ + ": expected "@ + decimal(expected as nat) + ", got "@ + decimal(
            given as nat,
        ),
        TypeError::NotATuple => "Not a tuple"@,
        TypeError::OutOfBoundsTupleIndex(i) => "Out of bounds tuple index: "@ + decimal(i as nat),
        TypeError::NotAFunction => "Not a function"@,
        TypeError::UnsafeRecordUpdate =>
            "Unsafe record update: the variant of the record is not known"@,
        TypeError::UnexpectedHole => "Unexpected `_`"@,
        TypeError::PositionalAfterLabelled => "Unlabelled field after a labelled field"@,
        TypeError::AlternativeBindings(n) => "Alternative patterns bind different variables: "@
            + n@,
        TypeError::MissingImplementation(n) => "No implementation for this target: "@ + n@,
        TypeError::DuplicateName(n) => "Duplicate definition: "@ + n@,
        TypeError::Syntax(p) => "Syntax error at position "@ + decimal(p as nat),
        TypeError::InexhaustiveCase =>
            "Inexhaustive patterns: a case expression does not match every value"@,
        TypeError::InexhaustiveLet =>
            "Inexhaustive pattern: use `let assert` for a pattern that may not match"@,
        TypeError::TooDeep => "The code nests too deeply"@,
    }
}

/// A one line description of the error.
pub fn describe_error(e: &TypeError) -> (r: Vec<char>)
    ensures
        r@ == description(*e),
{
    let mut out: Vec<char> = Vec::new();
    match e {
        TypeError::UnknownVariable(n) => {
            push_str(&mut out, "Unknown variable: ");
            push_name(&mut out, n);
        },
        TypeError::UnknownType(n) => {
            push_str(&mut out, "Unknown type: ");
            push_name(&mut out, n);
        },
        TypeError::UnknownModule(n) => {
            push_str(&mut out, "Unknown module: ");
            push_name(&mut out, n);
        },
        TypeError::UnknownModuleValue(n) => {
            push_str(&mut out, "Unknown module value: ");
            push_name(&mut out, n);
        },
        TypeError::UnknownRecordField(n) => {
            push_str(&mut out, "Unknown record field: ");
            push_name(&mut out, n);
        },
        TypeError::UnknownLabel(n) => {
            push_str(&mut out, "Unknown label: ");
            push_name(&mut out, n);
        },
        TypeError::DuplicateArgument(n) => {
            push_str(&mut out, "Duplicate argument: ");
            push_name(&mut out, n);
        },
        TypeError::NotAConstructor(n) => {
            push_str(&mut out, "Not a record constructor: ");
            push_name(&mut out, n);
        },
        TypeError::TypeMismatch { expected, given } => {
            push_str(&mut out, "Type mismatch: expected type ");
            push_name(&mut out, expected);
            push_str(&mut out, ", found type ");
            push_name(&mut out, given);
        },
        TypeError::RecursiveType => {
            push_str(&mut out, "Recursive type");
        },
        TypeError::IncorrectArity { expected, given } => {
            push_str(&mut out, "Incorrect arity: expected ");
            push_number(&mut out, *expected);
            push_str(&mut out, " arguments, got ");
            push_number(&mut out, *given);
        },
        TypeError::IncorrectTypeArity { name, expected, given } => {
            push_str(&mut out, "Incorrect type arity for ");
            push_name(&mut out, name);
            push_str(&mut out, ": expected ");
            push_number(&mut out, *expected);
            push_str(&mut out, ", got ");
            push_number(&mut out, *given);
        },
        TypeError::NotATuple => {
            push_str(&mut out, "Not a tuple");
        },
        TypeError::OutOfBoundsTupleIndex(i) => {
            push_str(&mut out, "Out of bounds tuple index: ");
            push_number(&mut out, *i);
        },
        TypeError::NotAFunction => {
            push_str(&mut out, "Not a function");
        },
        TypeError::UnsafeRecordUpdate => {
            push_str(&mut out, "Unsafe record update: the variant of the record is not known");
        },
        TypeError::UnexpectedHole => {
            push_str(&mut out, "Unexpected `_`");
        },
        TypeError::PositionalAfterLabelled => {
            push_str(&mut out, "Unlabelled field after a labelled field");
        },
        TypeError::AlternativeBindings(n) => {
            push_str(&mut out, "Alternative patterns bind different variables: ");
            push_name(&mut out, n);
        },
        TypeError::MissingImplementation(n) => {
            push_str(&mut out, "No implementation for this target: ");
            push_name(&mut out, n);
        },
        TypeError::DuplicateName(n) => {
            push_str(&mut out, "Duplicate definition: ");
            push_name(&mut out, n);
        },
        TypeError::Syntax(p) => {
            push_str(&mut out, "Syntax error at position ");
            push_number(&mut out, *p);
        },
        TypeError::InexhaustiveCase => {
            push_str(&mut out, "Inexhaustive patterns: a case expression does not match every value");
        },
        TypeError::InexhaustiveLet => {
            push_str(&mut out, "Inexhaustive pattern: use `let assert` for a pattern that may not match");
        },
        TypeError::TooDeep => {
            push_str(&mut out, "The code nests too deeply");
        },
    }
    out
}

} // verus!
