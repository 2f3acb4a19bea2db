use vstd::prelude::*;
use crate::ast::{
    Arg, BinOp, Clause, CtorDef, Definition, Expr, ExprSegment, FieldDef, FnParam, PatArg,
    PatSegment, Pattern, SegKind, Stmt, TypeAst, Unqualified,
};
use crate::lexer::{copy_name, tokens_wf, word_is, Tok};

verus! {

/// The cursor moved forward within the stream, and strictly forward when
/// something was parsed.
pub open spec fn moved(t: Seq<Tok>, p0: usize, p1: usize, ok: bool) -> bool {
    &&& p0 <= p1
    &&& (p1 as int) < t.len()
    &&& ok ==> p0 < p1
}

/// The name given to the parameter of a function capture.
pub fn capture_name() -> (r: Vec<char>)
    ensures
        r@ == seq!['_', 'c', 'a', 'p', 't', 'u', 'r', 'e'],
{
    let mut r: Vec<char> = Vec::new();
    r.push('_');
    r.push('c');
    r.push('a');
    r.push('p');
    r.push('t');
    r.push('u');
    r.push('r');
    r.push('e');
    proof {
        assert(r@ =~= seq!['_', 'c', 'a', 'p', 't', 'u', 'r', 'e']);
    }
    r
}

fn bump(t: &Vec<Tok>, pos: &mut usize)
    requires
        tokens_wf(t@),
        (*old(pos) as int) < t@.len(),
        !(t@[*old(pos) as int] is Eof),
    ensures
        *final(pos) == *old(pos) + 1,
        (*final(pos) as int) < t@.len(),
{
    proof {
        assert(t@.last() == t@[t@.len() - 1]);
    }
    let n = t.len();
    if *pos < n - 1 {
        *pos = *pos + 1;
    }
}

/// The token after the current one (the current one when it is the last).
fn peek2(t: &Vec<Tok>, pos: usize) -> (r: &Tok)
    requires
        (pos as int) < t@.len(),
    ensures
        (pos as int) + 1 < t@.len() ==> *r == t@[pos + 1],
        (pos as int) + 1 >= t@.len() ==> *r == t@[pos as int],
{
    if pos < t.len() - 1 {
        &t[pos + 1]
    } else {
        &t[pos]
    }
}

fn at_name(t: &Vec<Tok>, pos: usize) -> (r: Option<Vec<char>>)
    requires
        (pos as int) < t@.len(),
    ensures
        r is Some <==> t@[pos as int] is Name,
        r matches Some(n) ==> n@ == t@[pos as int]->Name_0@,
{
    match &t[pos] {
        Tok::Name(n) => Some(copy_name(n)),
        _ => None,
    }
}

/// The binary operator a token stands for, with its binding power.
pub open spec fn binop_of(tok: Tok) -> Option<(BinOp, u8)> {
    match tok {
        Tok::OrOr => Some((BinOp::Or, 1)),
        Tok::AndAnd => Some((BinOp::And, 2)),
        Tok::EqEq => Some((BinOp::Eq, 3)),
        Tok::NotEq => Some((BinOp::NotEq, 3)),
        Tok::Lt => Some((BinOp::LtInt, 4)),
        Tok::Gt => Some((BinOp::GtInt, 4)),
        Tok::LtEq => Some((BinOp::LtEqInt, 4)),
        Tok::GtEq => Some((BinOp::GtEqInt, 4)),
        Tok::LtDot => Some((BinOp::LtFloat, 4)),
        Tok::GtDot => Some((BinOp::GtFloat, 4)),
        Tok::LtEqDot => Some((BinOp::LtEqFloat, 4)),
        Tok::GtEqDot => Some((BinOp::GtEqFloat, 4)),
        Tok::LtGt => Some((BinOp::Concat, 5)),
        Tok::Plus => Some((BinOp::AddInt, 7)),
        Tok::Minus => Some((BinOp::SubInt, 7)),
        Tok::PlusDot => Some((BinOp::AddFloat, 7)),
        Tok::MinusDot => Some((BinOp::SubFloat, 7)),
        Tok::Star => Some((BinOp::MulInt, 8)),
        Tok::Slash => Some((BinOp::DivInt, 8)),
        Tok::Percent => Some((BinOp::RemInt, 8)),
        Tok::StarDot => Some((BinOp::MulFloat, 8)),
        Tok::SlashDot => Some((BinOp::DivFloat, 8)),
        _ => None,
    }
}

/// How tightly an operator binds, from the loosest: `||`, `&&`, the
/// equality tests `==` and `!=`, the ordering comparisons, `<>`, addition
/// and subtraction, then multiplication, division and remainder.
pub open spec fn op_tier(op: BinOp) -> nat {
    match op {
        BinOp::Or => 0,
        BinOp::And => 1,
        BinOp::Eq | BinOp::NotEq => 2,
        BinOp::LtInt | BinOp::GtInt | BinOp::LtEqInt | BinOp::GtEqInt | BinOp::LtFloat
        | BinOp::GtFloat | BinOp::LtEqFloat | BinOp::GtEqFloat => 3,
        BinOp::Concat => 4,
        BinOp::AddInt | BinOp::SubInt | BinOp::AddFloat | BinOp::SubFloat => 5,
        BinOp::MulInt | BinOp::DivInt | BinOp::RemInt | BinOp::MulFloat | BinOp::DivFloat => 6,
    }
}

/// Operator precedence: of two operator tokens, the one whose operator is
/// in a tighter tier binds tighter, and operators of one tier bind alike
/// (so `a + b != c` groups as `(a + b) != c`, and `a == b != c` from the
/// left); distinct tokens spell distinct operators.
pub proof fn lemma_operator_precedence(t1: Tok, t2: Tok)
    requires
        binop_of(t1) is Some,
        binop_of(t2) is Some,
    ensures
        (binop_of(t1).unwrap().1 < binop_of(t2).unwrap().1) == (op_tier(binop_of(t1).unwrap().0)
            < op_tier(binop_of(t2).unwrap().0)),
        (binop_of(t1).unwrap().1 == binop_of(t2).unwrap().1) == (op_tier(binop_of(t1).unwrap().0)
            == op_tier(binop_of(t2).unwrap().0)),
        binop_of(t1).unwrap().0 == binop_of(t2).unwrap().0 ==> t1 == t2,
        1 <= binop_of(t1).unwrap().1,
{
}

/// How tightly the top of an expression binds: a binary operation by
/// twice its operator's tier, a pipe between `<>` and addition, and any
/// other expression tighter than every operator.
pub open spec fn bind_level(e: Expr) -> nat {
    match e {
        Expr::Bin(op, _, _) => 2 * op_tier(op),
        Expr::Pipe(_, _) => 9,
        _ => 100,
    }
}

/// Operations group by precedence: the left operand of an operator binds
/// at least as tightly as the operator, so that operators of one tier
/// group from the left, and the right operand binds strictly more tightly.
pub open spec fn grouped(e: Expr) -> bool
    decreases e,
{
    match e {
        Expr::Bin(_, l, r) => grouped(*l) && grouped(*r) && bind_level(*l) >= bind_level(e)
            && bind_level(*r) > bind_level(e),
        Expr::Pipe(l, r) => grouped(*l) && grouped(*r) && bind_level(*l) >= 9 && bind_level(*r)
            > 9,
        _ => true,
    }
}

/// The level of the loosest operation that a least binding power admits.
spec fn power_level(p: int) -> int {
    if p <= 5 {
        2 * (p - 1)
    } else if p == 6 {
        9
    } else if p <= 8 {
        2 * (p - 2)
    } else {
        100
    }
}

proof fn lemma_power_level(tok: Tok)
    ensures
        binop_of(tok) matches Some(b) ==> power_level(b.1 as int) == 2 * op_tier(b.0),
{
}

fn binop_at(tok: &Tok) -> (r: Option<(BinOp, u8)>)
    ensures
        r is Some ==> !(*tok is Eof),
        r matches Some(p) ==> 1 <= p.1 <= 8,
        r == binop_of(*tok),
{
    match tok {
        Tok::OrOr => Some((BinOp::Or, 1)),
        Tok::AndAnd => Some((BinOp::And, 2)),
        Tok::EqEq => Some((BinOp::Eq, 3)),
        Tok::NotEq => Some((BinOp::NotEq, 3)),
        Tok::Lt => Some((BinOp::LtInt, 4)),
        Tok::Gt => Some((BinOp::GtInt, 4)),
        Tok::LtEq => Some((BinOp::LtEqInt, 4)),
        Tok::GtEq => Some((BinOp::GtEqInt, 4)),
        Tok::LtDot => Some((BinOp::LtFloat, 4)),
        Tok::GtDot => Some((BinOp::GtFloat, 4)),
        Tok::LtEqDot => Some((BinOp::LtEqFloat, 4)),
        Tok::GtEqDot => Some((BinOp::GtEqFloat, 4)),
        Tok::LtGt => Some((BinOp::Concat, 5)),
        Tok::Plus => Some((BinOp::AddInt, 7)),
        Tok::Minus => Some((BinOp::SubInt, 7)),
        Tok::PlusDot => Some((BinOp::AddFloat, 7)),
        Tok::MinusDot => Some((BinOp::SubFloat, 7)),
        Tok::Star => Some((BinOp::MulInt, 8)),
        Tok::Slash => Some((BinOp::DivInt, 8)),
        Tok::Percent => Some((BinOp::RemInt, 8)),
        Tok::StarDot => Some((BinOp::MulFloat, 8)),
        Tok::SlashDot => Some((BinOp::DivFloat, 8)),
        _ => None,
    }
}

/// Parses an expression.
pub fn parse_expr(t: &Vec<Tok>, pos: &mut usize, fuel: usize) -> (r: Result<Expr, usize>)
    requires
        tokens_wf(t@),
        (*old(pos) as int) < t@.len(),
    ensures
        r matches Err(p) ==> (p as int) < t@.len(),
        moved(t@, *old(pos), *final(pos), r is Ok),
        r matches Ok(e) ==> grouped(e),
    decreases fuel, 3nat,
{
    parse_binary(t, pos, 1, fuel)
}

fn parse_binary(t: &Vec<Tok>, pos: &mut usize, min_prec: u8, fuel: usize) -> (r: Result<
    Expr,
    usize,
>)
    requires
        tokens_wf(t@),
        (*old(pos) as int) < t@.len(),
    ensures
        r matches Err(p) ==> (p as int) < t@.len(),
        moved(t@, *old(pos), *final(pos), r is Ok),
        r matches Ok(e) ==> grouped(e) && bind_level(e) >= power_level(min_prec as int),
        r is Ok ==> (binop_of(t@[*final(pos) as int]) matches Some(b) ==> b.1 < min_prec),
        r is Ok ==> (t@[*final(pos) as int] is Pipe ==> min_prec > 6),
    decreases fuel, 2nat,
{
    if fuel == 0 {
        return Err(*pos);
    }
    let mut lhs = parse_unary(t, pos, fuel - 1)?;
    loop
        invariant
            tokens_wf(t@),
            (*pos as int) < t@.len(),
            *old(pos) < *pos,
            grouped(lhs),
            bind_level(lhs) >= power_level(min_prec as int),
            binop_of(t@[*pos as int]) matches Some(b) ==> (b.1 >= min_prec ==> power_level(
                b.1 as int,
            ) <= bind_level(lhs)),
            t@[*pos as int] is Pipe && min_prec <= 6 ==> 9 <= bind_level(lhs),
        decreases t@.len() - *pos,
    {
        match binop_at(&t[*pos]) {
            Some((op, prec)) => {
                if prec < min_prec {
                    break ;
                }
                proof {
                    lemma_power_level(t@[*pos as int]);
                }
                bump(t, pos);
                let rhs = parse_binary(t, pos, prec + 1, fuel - 1)?;
                lhs = Expr::Bin(op, Box::new(lhs), Box::new(rhs));
            },
            None => {
                if matches!(t[*pos], Tok::Pipe) && min_prec <= 6 {
                    bump(t, pos);
                    let rhs = parse_binary(t, pos, 7, fuel - 1)?;
                    lhs = Expr::Pipe(Box::new(lhs), Box::new(rhs));
                } else {
                    break ;
                }
            },
        }
    }
    Ok(lhs)
}

fn parse_unary(t: &Vec<Tok>, pos: &mut usize, fuel: usize) -> (r: Result<Expr, usize>)
    requires
        tokens_wf(t@),
        (*old(pos) as int) < t@.len(),
    ensures
        r matches Err(p) ==> (p as int) < t@.len(),
        moved(t@, *old(pos), *final(pos), r is Ok),
        r matches Ok(e) ==> !(e is Bin) && !(e is Pipe),
    decreases fuel, 1nat,
{
    if fuel == 0 {
        return Err(*pos);
    }
    if matches!(t[*pos], Tok::Minus) {
        bump(t, pos);
        if matches!(t[*pos], Tok::Float(_)) {
            bump(t, pos);
            return Ok(Expr::Float);
        }
        let inner = parse_unary(t, pos, fuel - 1)?;
        return Ok(Expr::NegInt(Box::new(inner)));
    }
    if matches!(t[*pos], Tok::Bang) {
        bump(t, pos);
        let inner = parse_unary(t, pos, fuel - 1)?;
        return Ok(Expr::Not(Box::new(inner)));
    }
    let mut e = parse_primary(t, pos, fuel - 1)?;
    loop
        invariant
            tokens_wf(t@),
            (*pos as int) < t@.len(),
            *old(pos) < *pos,
            !(e is Bin) && !(e is Pipe),
        decreases t@.len() - *pos,
    {
        if matches!(t[*pos], Tok::LParen) {
            e = parse_call_suffix(t, pos, e, fuel - 1)?;
        } else if matches!(t[*pos], Tok::Dot) {
            let next = peek2(t, *pos);
            match next {
                Tok::Name(n) => {
                    let label = copy_name(n);
                    bump(t, pos);
                    bump(t, pos);
                    e = Expr::Access(Box::new(e), label);
                },
                Tok::UpName(n) => {
                    let label = copy_name(n);
                    bump(t, pos);
                    bump(t, pos);
                    e = Expr::Access(Box::new(e), label);
                },
                Tok::Int(_, v) => {
                    let index = match v {
                        Some(i) => *i,
                        None => {
                            return Err(*pos);
                        },
                    };
                    bump(t, pos);
                    bump(t, pos);
                    e = Expr::TupleIndex(Box::new(e), index);
                },
                _ => {
                    return Err(*pos);
                },
            }
        } else {
            break ;
        }
    }
    Ok(e)
}

/// Parses `(args)` after a callee, a record update `(..base, args)`, and
/// turns a call with `_` arguments into a function capture.
fn parse_call_suffix(t: &Vec<Tok>, pos: &mut usize, callee: Expr, fuel: usize) -> (r: Result<
    Expr,
    usize,
>)
    requires
        tokens_wf(t@),
        (*old(pos) as int) < t@.len(),
        t@[*old(pos) as int] is LParen,
    ensures
        r matches Err(p) ==> (p as int) < t@.len(),
        moved(t@, *old(pos), *final(pos), r is Ok),
        r matches Ok(e) ==> !(e is Bin) && !(e is Pipe),
    decreases fuel, 0nat,
{
    if fuel == 0 {
        return Err(*pos);
    }
    bump(t, pos);
    if matches!(t[*pos], Tok::DotDot) {
        bump(t, pos);
        let base = parse_expr(t, pos, fuel - 1)?;
        let mut args: Vec<Arg> = Vec::new();
        if matches!(t[*pos], Tok::Comma) {
            bump(t, pos);
            args = parse_args(t, pos, fuel - 1)?;
        }
        if !matches!(t[*pos], Tok::RParen) {
            return Err(*pos);
        }
        bump(t, pos);
        return Ok(Expr::Update(Box::new(callee), Box::new(base), args));
    }
    let args = parse_args(t, pos, fuel - 1)?;
    if !matches!(t[*pos], Tok::RParen) {
        return Err(*pos);
    }
    bump(t, pos);
    let mut has_hole = false;
    let mut i: usize = 0;
    while i < args.len()
        invariant
            i <= args@.len(),
        decreases args@.len() - i,
    {
        if matches!(args[i].value, Expr::Hole) {
            has_hole = true;
        }
        i = i + 1;
    }
    if !has_hole {
        return Ok(Expr::Call(Box::new(callee), args));
    }
    let mut filled: Vec<Arg> = Vec::new();
    let mut args = args;
    while args.len() > 0
        invariant
            true,
        decreases args@.len(),
    {
        let a = args.remove(0);
        let value = if matches!(a.value, Expr::Hole) {
            Expr::Var(capture_name())
        } else {
            a.value
        };
        filled.push(Arg { label: a.label, value });
    }
    let param = FnParam { label: None, name: Some(capture_name()), annotation: None };
    let mut params: Vec<FnParam> = Vec::new();
    params.push(param);
    let mut body: Vec<Stmt> = Vec::new();
    body.push(Stmt::Expr(Expr::Call(Box::new(callee), filled)));
    Ok(Expr::Fn(params, None, body))
}

/// Parses comma separated call arguments up to (not including) `)`.
fn parse_args(t: &Vec<Tok>, pos: &mut usize, fuel: usize) -> (r: Result<Vec<Arg>, usize>)
    requires
        tokens_wf(t@),
        (*old(pos) as int) < t@.len(),
    ensures
        r matches Err(p) ==> (p as int) < t@.len(),
        moved(t@, *old(pos), *final(pos), false),
    decreases fuel, 0nat,
{
    let mut args: Vec<Arg> = Vec::new();
    if fuel == 0 {
        return Err(*pos);
    }
    loop
        invariant
            tokens_wf(t@),
            (*pos as int) < t@.len(),
            *old(pos) <= *pos,
        decreases t@.len() - *pos,
    {
        if matches!(t[*pos], Tok::RParen) {
            break ;
        }
        let label = at_name(t, *pos);
        let is_labelled = label.is_some() && matches!(peek2(t, *pos), Tok::Colon);
        if is_labelled {
            let name = label.unwrap();
            bump(t, pos);
            bump(t, pos);
            if matches!(t[*pos], Tok::Comma) || matches!(t[*pos], Tok::RParen) {
                let value = Expr::Var(copy_name(&name));
                args.push(Arg { label: Some(name), value });
            } else {
                let value = parse_expr(t, pos, fuel - 1)?;
                args.push(Arg { label: Some(name), value });
            }
        } else {
            let value = parse_expr(t, pos, fuel - 1)?;
            args.push(Arg { label: None, value });
        }
        if matches!(t[*pos], Tok::Comma) {
            bump(t, pos);
        } else {
            break ;
        }
    }
    Ok(args)
}

/// Parses comma separated expressions up to a closing token.
fn parse_expr_list(t: &Vec<Tok>, pos: &mut usize, fuel: usize) -> (r: Result<
    (Vec<Expr>, Option<Box<Expr>>),
    usize,
>)
    requires
        tokens_wf(t@),
        (*old(pos) as int) < t@.len(),
    ensures
        r matches Err(p) ==> (p as int) < t@.len(),
        moved(t@, *old(pos), *final(pos), false),
    decreases fuel, 0nat,
{
    let mut elems: Vec<Expr> = Vec::new();
    let mut tail: Option<Box<Expr>> = None;
    if fuel == 0 {
        return Err(*pos);
    }
    loop
        invariant
            tokens_wf(t@),
            (*pos as int) < t@.len(),
            *old(pos) <= *pos,
        decreases t@.len() - *pos,
    {
        if matches!(t[*pos], Tok::RParen) || matches!(t[*pos], Tok::RBracket) {
            break ;
        }
        if matches!(t[*pos], Tok::DotDot) {
            bump(t, pos);
            let e = parse_expr(t, pos, fuel - 1)?;
            tail = Some(Box::new(e));
        } else {
            let e = parse_expr(t, pos, fuel - 1)?;
            elems.push(e);
            if matches!(t[*pos], Tok::DotDot) {
                continue ;
            }
        }
        if matches!(t[*pos], Tok::Comma) {
            bump(t, pos);
        } else {
            break ;
        }
    }
    Ok((elems, tail))
}

/// The kind of value that a segment option names, if it names one.
pub open spec fn option_kind(o: Seq<char>) -> Option<SegKind> {
    if o == "float"@ {
        Some(SegKind::Float)
    } else if o == "bits"@ || o == "bytes"@ || o == "bit_array"@ || o == "binary"@ {
        Some(SegKind::Bits)
    } else if o == "utf8"@ || o == "utf16"@ || o == "utf32"@ {
        Some(SegKind::Utf8)
    } else if o == "utf8_codepoint"@ || o == "utf16_codepoint"@ || o == "utf32_codepoint"@ {
        Some(SegKind::Codepoint)
    } else {
        None
    }
}

/// The kind of a segment with the options `opts`: that of the last option
/// that names a kind, and `Int` where none does.
pub open spec fn kind_of_options(opts: Seq<Vec<char>>) -> SegKind
    decreases opts.len(),
{
    if opts.len() == 0 {
        SegKind::Int
    } else {
        match option_kind(opts.last()@) {
            Some(k) => k,
            None => kind_of_options(opts.drop_last()),
        }
    }
}

/// The kind of a bit array segment from its options.
fn segment_kind(opts: &Vec<Vec<char>>) -> (r: SegKind)
    ensures
        r == kind_of_options(opts@),
{
    let mut kind = SegKind::Int;
    let mut i: usize = 0;
    while i < opts.len()
        invariant
            i <= opts@.len(),
            kind == kind_of_options(opts@.take(i as int)),
        decreases opts@.len() - i,
    {
        proof {
            assert(opts@.take(i + 1).drop_last() =~= opts@.take(i as int));
        }
        let o = &opts[i];
        if word_is(o, "float") {
            kind = SegKind::Float;
        } else if word_is(o, "bits") || word_is(o, "bytes") || word_is(o, "bit_array")
            || word_is(o, "binary") {
            kind = SegKind::Bits;
        } else if word_is(o, "utf8") || word_is(o, "utf16") || word_is(o, "utf32") {
            kind = SegKind::Utf8;
        } else if word_is(o, "utf8_codepoint") || word_is(o, "utf16_codepoint") || word_is(
            o,
            "utf32_codepoint",
        ) {
            kind = SegKind::Codepoint;
        }
        i = i + 1;
    }
    proof {
        assert(opts@.take(opts@.len() as int) =~= opts@);
    }
    kind
}

/// Parses the options of a segment after `:`, such as `bits` or
/// `size(8)-unit(1)`; the named options are returned.
fn parse_segment_options(t: &Vec<Tok>, pos: &mut usize, fuel: usize) -> (r: Result<
    Vec<Vec<char>>,
    usize,
>)
    requires
        tokens_wf(t@),
        (*old(pos) as int) < t@.len(),
    ensures
        r matches Err(p) ==> (p as int) < t@.len(),
        moved(t@, *old(pos), *final(pos), false),
    decreases fuel, 0nat,
{
    let mut opts: Vec<Vec<char>> = Vec::new();
    if fuel == 0 {
        return Err(*pos);
    }
    loop
        invariant
            tokens_wf(t@),
            (*pos as int) < t@.len(),
            *old(pos) <= *pos,
        decreases t@.len() - *pos,
    {
        match &t[*pos] {
            Tok::Name(n) => {
                let name = copy_name(n);
                bump(t, pos);
                if matches!(t[*pos], Tok::LParen) {
                    bump(t, pos);
                    let _size = parse_expr(t, pos, fuel - 1)?;
                    if !matches!(t[*pos], Tok::RParen) {
                        return Err(*pos);
                    }
                    bump(t, pos);
                } else {
                    opts.push(name);
                }
            },
            Tok::Int(_, _) => {
                bump(t, pos);
            },
            _ => {
                return Err(*pos);
            },
        }
        if matches!(t[*pos], Tok::Minus) {
            bump(t, pos);
        } else {
            break ;
        }
    }
    Ok(opts)
}

fn parse_bit_array_expr(t: &Vec<Tok>, pos: &mut usize, fuel: usize) -> (r: Result<
    Vec<ExprSegment>,
    usize,
>)
    requires
        tokens_wf(t@),
        (*old(pos) as int) < t@.len(),
    ensures
        r matches Err(p) ==> (p as int) < t@.len(),
        moved(t@, *old(pos), *final(pos), false),
    decreases fuel, 0nat,
{
    let mut segs: Vec<ExprSegment> = Vec::new();
    if fuel == 0 {
        return Err(*pos);
    }
    loop
        invariant
            tokens_wf(t@),
            (*pos as int) < t@.len(),
            *old(pos) <= *pos,
        decreases t@.len() - *pos,
    {
        if matches!(t[*pos], Tok::GtGt) {
            break ;
        }
        let value = parse_primary(t, pos, fuel - 1)?;
        let mut kind = SegKind::Int;
        if matches!(t[*pos], Tok::Colon) {
            bump(t, pos);
            let opts = parse_segment_options(t, pos, fuel - 1)?;
            kind = segment_kind(&opts);
        }
        segs.push(ExprSegment { value, kind });
        if matches!(t[*pos], Tok::Comma) {
            bump(t, pos);
        } else {
            break ;
        }
    }
    Ok(segs)
}

fn parse_primary(t: &Vec<Tok>, pos: &mut usize, fuel: usize) -> (r: Result<Expr, usize>)
    requires
        tokens_wf(t@),
        (*old(pos) as int) < t@.len(),
    ensures
        r matches Err(p) ==> (p as int) < t@.len(),
        moved(t@, *old(pos), *final(pos), r is Ok),
        r matches Ok(e) ==> !(e is Bin) && !(e is Pipe),
    decreases fuel, 0nat,
{
    if fuel == 0 {
        return Err(*pos);
    }
    let start = *pos;
    match &t[*pos] {
        Tok::Int(_, _) => {
            bump(t, pos);
            Ok(Expr::Int)
        },
        Tok::Float(_) => {
            bump(t, pos);
            Ok(Expr::Float)
        },
        Tok::Str(_) => {
            bump(t, pos);
            Ok(Expr::Str)
        },
        Tok::Name(n) => {
            let name = copy_name(n);
            bump(t, pos);
            Ok(Expr::Var(name))
        },
        Tok::UpName(n) => {
            let name = copy_name(n);
            bump(t, pos);
            Ok(Expr::Var(name))
        },
        Tok::Discard(_) => {
            bump(t, pos);
            Ok(Expr::Hole)
        },
        Tok::LBracket => {
            bump(t, pos);
            let (elems, tail) = parse_expr_list(t, pos, fuel - 1)?;
            if !matches!(t[*pos], Tok::RBracket) {
                return Err(*pos);
            }
            bump(t, pos);
            Ok(Expr::List(elems, tail))
        },
        Tok::Hash => {
            bump(t, pos);
            if !matches!(t[*pos], Tok::LParen) {
                return Err(*pos);
            }
            bump(t, pos);
            let (elems, tail) = parse_expr_list(t, pos, fuel - 1)?;
            if tail.is_some() || !matches!(t[*pos], Tok::RParen) {
                return Err(*pos);
            }
            bump(t, pos);
            Ok(Expr::Tuple(elems))
        },
        Tok::LBrace => {
            bump(t, pos);
            let stmts = parse_stmts(t, pos, fuel - 1)?;
            if !matches!(t[*pos], Tok::RBrace) {
                return Err(*pos);
            }
            bump(t, pos);
            Ok(Expr::Block(stmts))
        },
        Tok::KwFn => {
            bump(t, pos);
            let params = parse_fn_params(t, pos, fuel - 1)?;
            let mut ret: Option<TypeAst> = None;
            if matches!(t[*pos], Tok::RArrow) {
                bump(t, pos);
                ret = Some(parse_type(t, pos, fuel - 1)?);
            }
            if !matches!(t[*pos], Tok::LBrace) {
                return Err(*pos);
            }
            bump(t, pos);
            let body = parse_stmts(t, pos, fuel - 1)?;
            if !matches!(t[*pos], Tok::RBrace) {
                return Err(*pos);
            }
            bump(t, pos);
            Ok(Expr::Fn(params, ret, body))
        },
        Tok::KwCase => {
            bump(t, pos);
            let mut subjects: Vec<Expr> = Vec::new();
            loop
                invariant
                    tokens_wf(t@),
                    (*pos as int) < t@.len(),
                    start < *pos,
                decreases t@.len() - *pos,
            {
                let s = parse_expr(t, pos, fuel - 1)?;
                subjects.push(s);
                if matches!(t[*pos], Tok::Comma) {
                    bump(t, pos);
                } else {
                    break ;
                }
            }
            if !matches!(t[*pos], Tok::LBrace) {
                return Err(*pos);
            }
            bump(t, pos);
            let mut clauses: Vec<Clause> = Vec::new();
            loop
                invariant
                    tokens_wf(t@),
                    (*pos as int) < t@.len(),
                    start < *pos,
                decreases t@.len() - *pos,
            {
                if matches!(t[*pos], Tok::RBrace) || matches!(t[*pos], Tok::Eof) {
                    break ;
                }
                let c = parse_clause(t, pos, fuel - 1)?;
                clauses.push(c);
            }
            if !matches!(t[*pos], Tok::RBrace) {
                return Err(*pos);
            }
            bump(t, pos);
            Ok(Expr::Case(subjects, clauses))
        },
        Tok::KwTodo => {
            bump(t, pos);
            if matches!(t[*pos], Tok::KwAs) {
                bump(t, pos);
                let m = parse_unary(t, pos, fuel - 1)?;
                return Ok(Expr::Todo(Some(Box::new(m))));
            }
            Ok(Expr::Todo(None))
        },
        Tok::KwPanic => {
            bump(t, pos);
            if matches!(t[*pos], Tok::KwAs) {
                bump(t, pos);
                let m = parse_unary(t, pos, fuel - 1)?;
                return Ok(Expr::Panic(Some(Box::new(m))));
            }
            Ok(Expr::Panic(None))
        },
        Tok::LtLt => {
            bump(t, pos);
            let segs = parse_bit_array_expr(t, pos, fuel - 1)?;
            if !matches!(t[*pos], Tok::GtGt) {
                return Err(*pos);
            }
            bump(t, pos);
            Ok(Expr::BitArray(segs))
        },
        _ => Err(*pos),
    }
}

/// Parses one case clause: alternative pattern rows, optional guard, body.
fn parse_clause(t: &Vec<Tok>, pos: &mut usize, fuel: usize) -> (r: Result<Clause, usize>)
    requires
        tokens_wf(t@),
        (*old(pos) as int) < t@.len(),
    ensures
        r matches Err(p) ==> (p as int) < t@.len(),
        moved(t@, *old(pos), *final(pos), r is Ok),
    decreases fuel, 0nat,
{
    if fuel == 0 {
        return Err(*pos);
    }
    let start = *pos;
    let mut alternatives: Vec<Vec<Pattern>> = Vec::new();
    loop
        invariant
            tokens_wf(t@),
            (*pos as int) < t@.len(),
            start <= *pos,
            alternatives@.len() > 0 ==> start < *pos,
        decreases t@.len() - *pos,
    {
        let mut row: Vec<Pattern> = Vec::new();
        let ghost iter_start = *pos;
        loop
            invariant
                tokens_wf(t@),
                (*pos as int) < t@.len(),
                start <= iter_start <= *pos,
                row@.len() > 0 ==> iter_start < *pos,
                alternatives@.len() > 0 ==> start < *pos,
            decreases t@.len() - *pos,
        {
            let p = parse_pattern(t, pos, fuel - 1)?;
            row.push(p);
            if matches!(t[*pos], Tok::Comma) {
                bump(t, pos);
            } else {
                break ;
            }
        }
        alternatives.push(row);
        if matches!(t[*pos], Tok::Bar) {
            bump(t, pos);
        } else {
            break ;
        }
    }
    let mut guard: Option<Expr> = None;
    if matches!(t[*pos], Tok::KwIf) {
        bump(t, pos);
        guard = Some(parse_expr(t, pos, fuel - 1)?);
    }
    if !matches!(t[*pos], Tok::RArrow) {
        return Err(*pos);
    }
    bump(t, pos);
    let body = parse_expr(t, pos, fuel - 1)?;
    Ok(Clause { alternatives, guard, body })
}

/// Parses the parameters of a function: `(label name: Type, ...)`.
fn parse_fn_params(t: &Vec<Tok>, pos: &mut usize, fuel: usize) -> (r: Result<Vec<FnParam>, usize>)
    requires
        tokens_wf(t@),
        (*old(pos) as int) < t@.len(),
    ensures
        r matches Err(p) ==> (p as int) < t@.len(),
        moved(t@, *old(pos), *final(pos), r is Ok),
    decreases fuel, 0nat,
{
    if fuel == 0 {
        return Err(*pos);
    }
    if !matches!(t[*pos], Tok::LParen) {
        return Err(*pos);
    }
    bump(t, pos);
    let start = *pos;
    let mut params: Vec<FnParam> = Vec::new();
    loop
        invariant
            tokens_wf(t@),
            (*pos as int) < t@.len(),
            *old(pos) < start <= *pos,
        decreases t@.len() - *pos,
    {
        if matches!(t[*pos], Tok::RParen) {
            break ;
        }
        let mut label: Option<Vec<char>> = None;
        let first_is_name = matches!(t[*pos], Tok::Name(_));
        let second = peek2(t, *pos);
        let second_is_binder = matches!(second, Tok::Name(_)) || matches!(second, Tok::Discard(_));
        if first_is_name && second_is_binder {
            label = at_name(t, *pos);
            bump(t, pos);
        }
        let name: Option<Vec<char>> = match &t[*pos] {
            Tok::Name(n) => Some(copy_name(n)),
            Tok::Discard(_) => None,
            _ => {
                return Err(*pos);
            },
        };
        bump(t, pos);
        let mut annotation: Option<TypeAst> = None;
        if matches!(t[*pos], Tok::Colon) {
            bump(t, pos);
            annotation = Some(parse_type(t, pos, fuel - 1)?);
        }
        params.push(FnParam { label, name, annotation });
        if matches!(t[*pos], Tok::Comma) {
            bump(t, pos);
        } else {
            break ;
        }
    }
    if !matches!(t[*pos], Tok::RParen) {
        return Err(*pos);
    }
    bump(t, pos);
    Ok(params)
}

/// Parses statements up to (not including) `}` or the end of input.
/// `use` takes the statements that follow it as the body of its callback.
pub fn parse_stmts(t: &Vec<Tok>, pos: &mut usize, fuel: usize) -> (r: Result<Vec<Stmt>, usize>)
    requires
        tokens_wf(t@),
        (*old(pos) as int) < t@.len(),
    ensures
        r matches Err(p) ==> (p as int) < t@.len(),
        moved(t@, *old(pos), *final(pos), false),
    decreases fuel, 4nat,
{
    let mut stmts: Vec<Stmt> = Vec::new();
    if fuel == 0 {
        return Err(*pos);
    }
    loop
        invariant
            tokens_wf(t@),
            (*pos as int) < t@.len(),
            *old(pos) <= *pos,
        decreases t@.len() - *pos,
    {
        if matches!(t[*pos], Tok::RBrace) || matches!(t[*pos], Tok::Eof) {
            break ;
        }
        if matches!(t[*pos], Tok::KwLet) {
            bump(t, pos);
            let mut is_assert = false;
            if matches!(t[*pos], Tok::KwAssert) {
                bump(t, pos);
                is_assert = true;
            }
            let pattern = parse_pattern(t, pos, fuel - 1)?;
            let mut annotation: Option<TypeAst> = None;
            if matches!(t[*pos], Tok::Colon) {
                bump(t, pos);
                annotation = Some(parse_type(t, pos, fuel - 1)?);
            }
            if !matches!(t[*pos], Tok::Equal) {
                return Err(*pos);
            }
            bump(t, pos);
            let value = parse_expr(t, pos, fuel - 1)?;
            stmts.push(Stmt::Let { assert: is_assert, pattern, annotation, value });
        } else if matches!(t[*pos], Tok::KwUse) {
            bump(t, pos);
            let mut params: Vec<FnParam> = Vec::new();
            loop
                invariant
                    tokens_wf(t@),
                    (*pos as int) < t@.len(),
                    *old(pos) < *pos,
                decreases t@.len() - *pos,
            {
                if matches!(t[*pos], Tok::LArrow) {
                    break ;
                }
                let name: Option<Vec<char>> = match &t[*pos] {
                    Tok::Name(n) => Some(copy_name(n)),
                    Tok::Discard(_) => None,
                    _ => {
                        return Err(*pos);
                    },
                };
                bump(t, pos);
                let mut annotation: Option<TypeAst> = None;
                if matches!(t[*pos], Tok::Colon) {
                    bump(t, pos);
                    annotation = Some(parse_type(t, pos, fuel - 1)?);
                }
                params.push(FnParam { label: None, name, annotation });
                if matches!(t[*pos], Tok::Comma) {
                    bump(t, pos);
                } else {
                    break ;
                }
            }
            if !matches!(t[*pos], Tok::LArrow) {
                return Err(*pos);
            }
            bump(t, pos);
            let call = parse_expr(t, pos, fuel - 1)?;
            let rest = parse_stmts(t, pos, fuel - 1)?;
            let callback = Expr::Fn(params, None, rest);
            let full = match call {
                Expr::Call(f, args) => {
                    let mut args = args;
                    args.push(Arg { label: None, value: callback });
                    Expr::Call(f, args)
                },
                other => {
                    let mut args: Vec<Arg> = Vec::new();
                    args.push(Arg { label: None, value: callback });
                    Expr::Call(Box::new(other), args)
                },
            };
            stmts.push(Stmt::Expr(full));
            break ;
        } else {
            let e = parse_expr(t, pos, fuel - 1)?;
            stmts.push(Stmt::Expr(e));
        }
    }
    Ok(stmts)
}

/// Parses a pattern, with an optional `as name`.
pub fn parse_pattern(t: &Vec<Tok>, pos: &mut usize, fuel: usize) -> (r: Result<Pattern, usize>)
    requires
        tokens_wf(t@),
        (*old(pos) as int) < t@.len(),
    ensures
        r matches Err(p) ==> (p as int) < t@.len(),
        moved(t@, *old(pos), *final(pos), r is Ok),
    decreases fuel, 1nat,
{
    if fuel == 0 {
        return Err(*pos);
    }
    let p = parse_pattern_base(t, pos, fuel - 1)?;
    if matches!(t[*pos], Tok::KwAs) {
        bump(t, pos);
        match &t[*pos] {
            Tok::Name(n) => {
                let name = copy_name(n);
                bump(t, pos);
                return Ok(Pattern::As(Box::new(p), name));
            },
            _ => {
                return Err(*pos);
            },
        }
    }
    Ok(p)
}

fn parse_pattern_list(t: &Vec<Tok>, pos: &mut usize, fuel: usize) -> (r: Result<
    (Vec<Pattern>, Option<Box<Pattern>>),
    usize,
>)
    requires
        tokens_wf(t@),
        (*old(pos) as int) < t@.len(),
    ensures
        r matches Err(p) ==> (p as int) < t@.len(),
        moved(t@, *old(pos), *final(pos), false),
    decreases fuel, 0nat,
{
    let mut elems: Vec<Pattern> = Vec::new();
    let mut tail: Option<Box<Pattern>> = None;
    if fuel == 0 {
        return Err(*pos);
    }
    loop
        invariant
            tokens_wf(t@),
            (*pos as int) < t@.len(),
            *old(pos) <= *pos,
        decreases t@.len() - *pos,
    {
        if matches!(t[*pos], Tok::RParen) || matches!(t[*pos], Tok::RBracket) {
            break ;
        }
        if matches!(t[*pos], Tok::DotDot) {
            bump(t, pos);
            if matches!(t[*pos], Tok::RBracket) || matches!(t[*pos], Tok::Comma) {
                tail = Some(Box::new(Pattern::Discard));
            } else {
                let p = parse_pattern(t, pos, fuel - 1)?;
                tail = Some(Box::new(p));
            }
        } else {
            let p = parse_pattern(t, pos, fuel - 1)?;
            elems.push(p);
            if matches!(t[*pos], Tok::DotDot) {
                continue ;
            }
        }
        if matches!(t[*pos], Tok::Comma) {
            bump(t, pos);
        } else {
            break ;
        }
    }
    Ok((elems, tail))
}

/// Parses the arguments of a constructor pattern up to `)`; the flag tells
/// whether a spread `..` was given.
fn parse_pattern_args(t: &Vec<Tok>, pos: &mut usize, fuel: usize) -> (r: Result<
    (Vec<PatArg>, bool),
    usize,
>)
    requires
        tokens_wf(t@),
        (*old(pos) as int) < t@.len(),
    ensures
        r matches Err(p) ==> (p as int) < t@.len(),
        moved(t@, *old(pos), *final(pos), false),
    decreases fuel, 0nat,
{
    let mut args: Vec<PatArg> = Vec::new();
    let mut spread = false;
    if fuel == 0 {
        return Err(*pos);
    }
    loop
        invariant
            tokens_wf(t@),
            (*pos as int) < t@.len(),
            *old(pos) <= *pos,
        decreases t@.len() - *pos,
    {
        if matches!(t[*pos], Tok::RParen) {
            break ;
        }
        if matches!(t[*pos], Tok::DotDot) {
            bump(t, pos);
            spread = true;
        } else {
            let label = at_name(t, *pos);
            let is_labelled = label.is_some() && matches!(peek2(t, *pos), Tok::Colon);
            if is_labelled {
                let name = label.unwrap();
                bump(t, pos);
                bump(t, pos);
                if matches!(t[*pos], Tok::Comma) || matches!(t[*pos], Tok::RParen) {
                    let value = Pattern::Var(copy_name(&name));
                    args.push(PatArg { label: Some(name), value });
                } else {
                    let value = parse_pattern(t, pos, fuel - 1)?;
                    args.push(PatArg { label: Some(name), value });
                }
            } else {
                let value = parse_pattern(t, pos, fuel - 1)?;
                args.push(PatArg { label: None, value });
            }
        }
        if matches!(t[*pos], Tok::Comma) {
            bump(t, pos);
        } else {
            break ;
        }
    }
    Ok((args, spread))
}

fn parse_ctor_pattern(
    t: &Vec<Tok>,
    pos: &mut usize,
    module: Option<Vec<char>>,
    name: Vec<char>,
    fuel: usize,
) -> (r: Result<Pattern, usize>)
    requires
        tokens_wf(t@),
        (*old(pos) as int) < t@.len(),
    ensures
        r matches Err(p) ==> (p as int) < t@.len(),
        moved(t@, *old(pos), *final(pos), false),
    decreases fuel, 0nat,
{
    if fuel == 0 {
        return Err(*pos);
    }
    if matches!(t[*pos], Tok::LParen) {
        bump(t, pos);
        let (args, spread) = parse_pattern_args(t, pos, fuel - 1)?;
        if !matches!(t[*pos], Tok::RParen) {
            return Err(*pos);
        }
        bump(t, pos);
        Ok(Pattern::Ctor { module, name, args, spread })
    } else {
        Ok(Pattern::Ctor { module, name, args: Vec::new(), spread: false })
    }
}

fn parse_bit_array_pattern(t: &Vec<Tok>, pos: &mut usize, fuel: usize) -> (r: Result<
    Vec<PatSegment>,
    usize,
>)
    requires
        tokens_wf(t@),
        (*old(pos) as int) < t@.len(),
    ensures
        r matches Err(p) ==> (p as int) < t@.len(),
        moved(t@, *old(pos), *final(pos), false),
    decreases fuel, 0nat,
{
    let mut segs: Vec<PatSegment> = Vec::new();
    if fuel == 0 {
        return Err(*pos);
    }
    loop
        invariant
            tokens_wf(t@),
            (*pos as int) < t@.len(),
            *old(pos) <= *pos,
        decreases t@.len() - *pos,
    {
        if matches!(t[*pos], Tok::GtGt) {
            break ;
        }
        let value = parse_pattern_base(t, pos, fuel - 1)?;
        let mut kind = SegKind::Int;
        if matches!(t[*pos], Tok::Colon) {
            bump(t, pos);
            let opts = parse_segment_options(t, pos, fuel - 1)?;
            kind = segment_kind(&opts);
        }
        segs.push(PatSegment { value, kind });
        if matches!(t[*pos], Tok::Comma) {
            bump(t, pos);
        } else {
            break ;
        }
    }
    Ok(segs)
}

fn parse_pattern_base(t: &Vec<Tok>, pos: &mut usize, fuel: usize) -> (r: Result<Pattern, usize>)
    requires
        tokens_wf(t@),
        (*old(pos) as int) < t@.len(),
    ensures
        r matches Err(p) ==> (p as int) < t@.len(),
        moved(t@, *old(pos), *final(pos), r is Ok),
    decreases fuel, 0nat,
{
    if fuel == 0 {
        return Err(*pos);
    }
    match &t[*pos] {
        Tok::Discard(_) => {
            bump(t, pos);
            Ok(Pattern::Discard)
        },
        Tok::Name(n) => {
            let name = copy_name(n);
            bump(t, pos);
            if matches!(t[*pos], Tok::Dot) {
                match peek2(t, *pos) {
                    Tok::UpName(c) => {
                        let cname = copy_name(c);
                        bump(t, pos);
                        bump(t, pos);
                        return parse_ctor_pattern(t, pos, Some(name), cname, fuel - 1);
                    },
                    _ => {
                        return Err(*pos);
                    },
                }
            }
            Ok(Pattern::Var(name))
        },
        Tok::UpName(n) => {
            let name = copy_name(n);
            bump(t, pos);
            parse_ctor_pattern(t, pos, None, name, fuel - 1)
        },
        Tok::Int(_, _) => {
            bump(t, pos);
            Ok(Pattern::Int)
        },
        Tok::Float(_) => {
            bump(t, pos);
            Ok(Pattern::Float)
        },
        Tok::Str(_) => {
            bump(t, pos);
            Ok(Pattern::Str)
        },
        Tok::Minus => {
            bump(t, pos);
            match &t[*pos] {
                Tok::Int(_, _) => {
                    bump(t, pos);
                    Ok(Pattern::Int)
                },
                Tok::Float(_) => {
                    bump(t, pos);
                    Ok(Pattern::Float)
                },
                _ => Err(*pos),
            }
        },
        Tok::LBracket => {
            bump(t, pos);
            let (elems, tail) = parse_pattern_list(t, pos, fuel - 1)?;
            if !matches!(t[*pos], Tok::RBracket) {
                return Err(*pos);
            }
            bump(t, pos);
            Ok(Pattern::List(elems, tail))
        },
        Tok::Hash => {
            bump(t, pos);
            if !matches!(t[*pos], Tok::LParen) {
                return Err(*pos);
            }
            bump(t, pos);
            let (elems, tail) = parse_pattern_list(t, pos, fuel - 1)?;
            if tail.is_some() || !matches!(t[*pos], Tok::RParen) {
                return Err(*pos);
            }
            bump(t, pos);
            Ok(Pattern::Tuple(elems))
        },
        Tok::LtLt => {
            bump(t, pos);
            let segs = parse_bit_array_pattern(t, pos, fuel - 1)?;
            if !matches!(t[*pos], Tok::GtGt) {
                return Err(*pos);
            }
            bump(t, pos);
            Ok(Pattern::BitArray(segs))
        },
        _ => Err(*pos),
    }
}

/// Parses comma separated types up to (not including) `)`.
fn parse_type_list(t: &Vec<Tok>, pos: &mut usize, fuel: usize) -> (r: Result<Vec<TypeAst>, usize>)
    requires
        tokens_wf(t@),
        (*old(pos) as int) < t@.len(),
    ensures
        r matches Err(p) ==> (p as int) < t@.len(),
        moved(t@, *old(pos), *final(pos), false),
    decreases fuel, 0nat,
{
    let mut tys: Vec<TypeAst> = Vec::new();
    if fuel == 0 {
        return Err(*pos);
    }
    loop
        invariant
            tokens_wf(t@),
            (*pos as int) < t@.len(),
            *old(pos) <= *pos,
        decreases t@.len() - *pos,
    {
        if matches!(t[*pos], Tok::RParen) {
            break ;
        }
        let ty = parse_type(t, pos, fuel - 1)?;
        tys.push(ty);
        if matches!(t[*pos], Tok::Comma) {
            bump(t, pos);
        } else {
            break ;
        }
    }
    Ok(tys)
}

fn parse_type_args(t: &Vec<Tok>, pos: &mut usize, fuel: usize) -> (r: Result<Vec<TypeAst>, usize>)
    requires
        tokens_wf(t@),
        (*old(pos) as int) < t@.len(),
    ensures
        r matches Err(p) ==> (p as int) < t@.len(),
        moved(t@, *old(pos), *final(pos), false),
    decreases fuel, 0nat,
{
    if fuel == 0 {
        return Err(*pos);
    }
    if matches!(t[*pos], Tok::LParen) {
        bump(t, pos);
        let args = parse_type_list(t, pos, fuel - 1)?;
        if !matches!(t[*pos], Tok::RParen) {
            return Err(*pos);
        }
        bump(t, pos);
        Ok(args)
    } else {
        Ok(Vec::new())
    }
}

/// Parses a type annotation.
pub fn parse_type(t: &Vec<Tok>, pos: &mut usize, fuel: usize) -> (r: Result<TypeAst, usize>)
    requires
        tokens_wf(t@),
        (*old(pos) as int) < t@.len(),
    ensures
        r matches Err(p) ==> (p as int) < t@.len(),
        moved(t@, *old(pos), *final(pos), r is Ok),
    decreases fuel, 1nat,
{
    if fuel == 0 {
        return Err(*pos);
    }
    match &t[*pos] {
        Tok::Name(n) => {
            let name = copy_name(n);
            bump(t, pos);
            if matches!(t[*pos], Tok::Dot) {
                match peek2(t, *pos) {
                    Tok::UpName(c) => {
                        let cname = copy_name(c);
                        bump(t, pos);
                        bump(t, pos);
                        let args = parse_type_args(t, pos, fuel - 1)?;
                        return Ok(TypeAst::Named { module: Some(name), name: cname, args });
                    },
                    _ => {
                        return Err(*pos);
                    },
                }
            }
            Ok(TypeAst::Var(name))
        },
        Tok::Discard(_) => {
            bump(t, pos);
            Ok(TypeAst::Hole)
        },
        Tok::UpName(n) => {
            let name = copy_name(n);
            bump(t, pos);
            let args = parse_type_args(t, pos, fuel - 1)?;
            Ok(TypeAst::Named { module: None, name, args })
        },
        Tok::KwFn => {
            bump(t, pos);
            if !matches!(t[*pos], Tok::LParen) {
                return Err(*pos);
            }
            bump(t, pos);
            let args = parse_type_list(t, pos, fuel - 1)?;
            if !matches!(t[*pos], Tok::RParen) {
                return Err(*pos);
            }
            bump(t, pos);
            if !matches!(t[*pos], Tok::RArrow) {
                return Err(*pos);
            }
            bump(t, pos);
            let ret = parse_type(t, pos, fuel - 1)?;
            Ok(TypeAst::Fn(args, Box::new(ret)))
        },
        Tok::Hash => {
            bump(t, pos);
            if !matches!(t[*pos], Tok::LParen) {
                return Err(*pos);
            }
            bump(t, pos);
            let elems = parse_type_list(t, pos, fuel - 1)?;
            if !matches!(t[*pos], Tok::RParen) {
                return Err(*pos);
            }
            bump(t, pos);
            Ok(TypeAst::Tuple(elems))
        },
        _ => Err(*pos),
    }
}

/// Skips a bracketed attribute argument list, noting the targets that an
/// `@external(target, ..)` names.
fn parse_attribute(t: &Vec<Tok>, pos: &mut usize) -> (r: Result<(bool, bool, bool), usize>)
    requires
        tokens_wf(t@),
        (*old(pos) as int) < t@.len(),
        t@[*old(pos) as int] is At,
    ensures
        r matches Err(p) ==> (p as int) < t@.len(),
        moved(t@, *old(pos), *final(pos), r is Ok),
{
    bump(t, pos);
    let attr = match at_name(t, *pos) {
        Some(n) => n,
        None => {
            return Err(*pos);
        },
    };
    bump(t, pos);
    let is_internal = word_is(&attr, "internal");
    let is_external = word_is(&attr, "external");
    let mut erlang = false;
    let mut javascript = false;
    if matches!(t[*pos], Tok::LParen) {
        bump(t, pos);
        if is_external {
            match at_name(t, *pos) {
                Some(target) => {
                    erlang = word_is(&target, "erlang");
                    javascript = word_is(&target, "javascript");
                },
                None => {},
            }
        }
        let mut depth: usize = 1;
        while depth > 0
            invariant
                tokens_wf(t@),
                (*pos as int) < t@.len(),
                *old(pos) < *pos,
            decreases t@.len() - *pos,
        {
            if matches!(t[*pos], Tok::Eof) {
                return Err(*pos);
            }
            if matches!(t[*pos], Tok::LParen) && depth < usize::MAX {
                depth = depth + 1;
            } else if matches!(t[*pos], Tok::RParen) {
                depth = depth - 1;
            }
            bump(t, pos);
        }
    }
    Ok((is_internal, erlang, javascript))
}

fn parse_import(t: &Vec<Tok>, pos: &mut usize) -> (r: Result<Definition, usize>)
    requires
        tokens_wf(t@),
        (*old(pos) as int) < t@.len(),
        t@[*old(pos) as int] is KwImport,
    ensures
        r matches Err(p) ==> (p as int) < t@.len(),
        moved(t@, *old(pos), *final(pos), r is Ok),
{
    bump(t, pos);
    let mut path: Vec<Vec<char>> = Vec::new();
    loop
        invariant
            tokens_wf(t@),
            (*pos as int) < t@.len(),
            *old(pos) < *pos,
        decreases t@.len() - *pos,
    {
        match at_name(t, *pos) {
            Some(n) => {
                path.push(n);
                bump(t, pos);
            },
            None => {
                return Err(*pos);
            },
        }
        if matches!(t[*pos], Tok::Slash) {
            bump(t, pos);
        } else {
            break ;
        }
    }
    let mut unqualified: Vec<Unqualified> = Vec::new();
    if matches!(t[*pos], Tok::Dot) && matches!(peek2(t, *pos), Tok::LBrace) {
        bump(t, pos);
        bump(t, pos);
        loop
            invariant
                tokens_wf(t@),
                (*pos as int) < t@.len(),
                *old(pos) < *pos,
            decreases t@.len() - *pos,
        {
            if matches!(t[*pos], Tok::RBrace) {
                break ;
            }
            let mut is_type = false;
            if matches!(t[*pos], Tok::KwType) {
                bump(t, pos);
                is_type = true;
            }
            let name = match &t[*pos] {
                Tok::Name(n) => copy_name(n),
                Tok::UpName(n) => copy_name(n),
                _ => {
                    return Err(*pos);
                },
            };
            bump(t, pos);
            let mut alias: Option<Vec<char>> = None;
            if matches!(t[*pos], Tok::KwAs) {
                bump(t, pos);
                match &t[*pos] {
                    Tok::Name(n) => {
                        alias = Some(copy_name(n));
                    },
                    Tok::UpName(n) => {
                        alias = Some(copy_name(n));
                    },
                    _ => {
                        return Err(*pos);
                    },
                }
                bump(t, pos);
            }
            unqualified.push(Unqualified { is_type, name, alias });
            if matches!(t[*pos], Tok::Comma) {
                bump(t, pos);
            } else {
                break ;
            }
        }
        if !matches!(t[*pos], Tok::RBrace) {
            return Err(*pos);
        }
        bump(t, pos);
    }
    let mut alias: Option<Vec<char>> = None;
    if matches!(t[*pos], Tok::KwAs) {
        bump(t, pos);
        match at_name(t, *pos) {
            Some(n) => {
                alias = Some(n);
                bump(t, pos);
            },
            None => {
                return Err(*pos);
            },
        }
    }
    Ok(Definition::Import { path, alias, unqualified })
}

fn parse_custom_type(
    t: &Vec<Tok>,
    pos: &mut usize,
    public: bool,
    opaque: bool,
    internal: bool,
    fuel: usize,
) -> (r: Result<Definition, usize>)
    requires
        tokens_wf(t@),
        (*old(pos) as int) < t@.len(),
        t@[*old(pos) as int] is KwType,
    ensures
        r matches Err(p) ==> (p as int) < t@.len(),
        moved(t@, *old(pos), *final(pos), r is Ok),
{
    bump(t, pos);
    let name = match &t[*pos] {
        Tok::UpName(n) => copy_name(n),
        _ => {
            return Err(*pos);
        },
    };
    bump(t, pos);
    let mut params: Vec<Vec<char>> = Vec::new();
    if matches!(t[*pos], Tok::LParen) {
        bump(t, pos);
        loop
            invariant
                tokens_wf(t@),
                (*pos as int) < t@.len(),
                *old(pos) < *pos,
            decreases t@.len() - *pos,
        {
            if matches!(t[*pos], Tok::RParen) {
                break ;
            }
            match at_name(t, *pos) {
                Some(n) => {
                    params.push(n);
                    bump(t, pos);
                },
                None => {
                    return Err(*pos);
                },
            }
            if matches!(t[*pos], Tok::Comma) {
                bump(t, pos);
            } else {
                break ;
            }
        }
        if !matches!(t[*pos], Tok::RParen) {
            return Err(*pos);
        }
        bump(t, pos);
    }
    if matches!(t[*pos], Tok::Equal) {
        bump(t, pos);
        let target = parse_type(t, pos, fuel)?;
        return Ok(Definition::TypeAlias { public, internal, name, params, target });
    }
    if !matches!(t[*pos], Tok::LBrace) {
        return Ok(Definition::CustomType { public, opaque, internal, name, params, constructors: None });
    }
    bump(t, pos);
    let mut ctors: Vec<CtorDef> = Vec::new();
    loop
        invariant
            tokens_wf(t@),
            (*pos as int) < t@.len(),
            *old(pos) < *pos,
        decreases t@.len() - *pos,
    {
        let cname = match &t[*pos] {
            Tok::UpName(n) => copy_name(n),
            _ => {
                break ;
            },
        };
        let ghost iter_start = *pos;
        bump(t, pos);
        let mut fields: Vec<FieldDef> = Vec::new();
        if matches!(t[*pos], Tok::LParen) {
            bump(t, pos);
            loop
                invariant
                    tokens_wf(t@),
                    (*pos as int) < t@.len(),
                    *old(pos) <= iter_start < *pos,
                decreases t@.len() - *pos,
            {
                if matches!(t[*pos], Tok::RParen) {
                    break ;
                }
                let mut label: Option<Vec<char>> = None;
                if matches!(t[*pos], Tok::Name(_)) && matches!(peek2(t, *pos), Tok::Colon) {
                    label = at_name(t, *pos);
                    bump(t, pos);
                    bump(t, pos);
                }
                let annotation = parse_type(t, pos, fuel)?;
                fields.push(FieldDef { label, annotation });
                if matches!(t[*pos], Tok::Comma) {
                    bump(t, pos);
                } else {
                    break ;
                }
            }
            if !matches!(t[*pos], Tok::RParen) {
                return Err(*pos);
            }
            bump(t, pos);
        }
        ctors.push(CtorDef { name: cname, fields });
    }
    if !matches!(t[*pos], Tok::RBrace) {
        return Err(*pos);
    }
    bump(t, pos);
    Ok(Definition::CustomType { public, opaque, internal, name, params, constructors: Some(ctors) })
}

fn parse_definition(t: &Vec<Tok>, pos: &mut usize, fuel: usize) -> (r: Result<Definition, usize>)
    requires
        tokens_wf(t@),
        (*old(pos) as int) < t@.len(),
    ensures
        r matches Err(p) ==> (p as int) < t@.len(),
        moved(t@, *old(pos), *final(pos), r is Ok),
{
    let start = *pos;
    let mut internal = false;
    let mut erlang = false;
    let mut javascript = false;
    loop
        invariant
            tokens_wf(t@),
            (*pos as int) < t@.len(),
            start <= *pos,
        decreases t@.len() - *pos,
    {
        if !matches!(t[*pos], Tok::At) {
            break ;
        }
        let (i, e, j) = parse_attribute(t, pos)?;
        internal = internal || i;
        erlang = erlang || e;
        javascript = javascript || j;
    }
    if matches!(t[*pos], Tok::KwImport) {
        return parse_import(t, pos);
    }
    let mut public = false;
    if matches!(t[*pos], Tok::KwPub) {
        bump(t, pos);
        public = true;
    }
    let mut opaque = false;
    if matches!(t[*pos], Tok::KwOpaque) {
        bump(t, pos);
        opaque = true;
    }
    if matches!(t[*pos], Tok::KwType) {
        return parse_custom_type(t, pos, public, opaque, internal, fuel);
    }
    if matches!(t[*pos], Tok::KwConst) {
        bump(t, pos);
        let name = match at_name(t, *pos) {
            Some(n) => n,
            None => {
                return Err(*pos);
            },
        };
        bump(t, pos);
        let mut annotation: Option<TypeAst> = None;
        if matches!(t[*pos], Tok::Colon) {
            bump(t, pos);
            annotation = Some(parse_type(t, pos, fuel)?);
        }
        if !matches!(t[*pos], Tok::Equal) {
            return Err(*pos);
        }
        bump(t, pos);
        let value = parse_expr(t, pos, fuel)?;
        return Ok(Definition::Constant { public, internal, name, annotation, value });
    }
    if matches!(t[*pos], Tok::KwFn) {
        bump(t, pos);
        let name = match at_name(t, *pos) {
            Some(n) => n,
            None => {
                return Err(*pos);
            },
        };
        bump(t, pos);
        let params = parse_fn_params(t, pos, fuel)?;
        let mut ret: Option<TypeAst> = None;
        if matches!(t[*pos], Tok::RArrow) {
            bump(t, pos);
            ret = Some(parse_type(t, pos, fuel)?);
        }
        let mut body: Option<Vec<Stmt>> = None;
        if matches!(t[*pos], Tok::LBrace) {
            bump(t, pos);
            let stmts = parse_stmts(t, pos, fuel)?;
            if !matches!(t[*pos], Tok::RBrace) {
                return Err(*pos);
            }
            bump(t, pos);
            body = Some(stmts);
        }
        return Ok(
            Definition::Function {
                public,
                internal,
                name,
                params,
                ret,
                body,
                erlang_external: erlang,
                javascript_external: javascript,
            },
        );
    }
    Err(*pos)
}

/// The depth of nesting that parsing allows.
pub fn parse_depth() -> (r: usize)
    ensures
        r == 100000,
{
    100000
}

/// Parses the definitions of a module.
pub fn parse_module(t: &Vec<Tok>) -> (r: Result<Vec<Definition>, usize>)
    requires
        tokens_wf(t@),
    ensures
        r matches Err(p) ==> (p as int) < t@.len(),
{
    let mut pos: usize = 0;
    let mut defs: Vec<Definition> = Vec::new();
    loop
        invariant
            tokens_wf(t@),
            (pos as int) < t@.len(),
        decreases t@.len() - pos,
    {
        if matches!(t[pos], Tok::Eof) {
            break ;
        }
        let d = parse_definition(t, &mut pos, parse_depth())?;
        defs.push(d);
    }
    Ok(defs)
}

/// Parses a sequence of statements making up the whole input.
pub fn parse_statement_sequence(t: &Vec<Tok>) -> (r: Result<Vec<Stmt>, usize>)
    requires
        tokens_wf(t@),
    ensures
        r matches Err(p) ==> (p as int) < t@.len(),
{
    let mut pos: usize = 0;
    let stmts = parse_stmts(t, &mut pos, parse_depth())?;
    if !matches!(t[pos], Tok::Eof) {
        return Err(pos);
    }
    Ok(stmts)
}

} // verus!
