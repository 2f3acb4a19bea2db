use vstd::prelude::*;

verus! {

/// A lexical token of Gleam source text.
pub enum Tok {
    /// A lower case name (not a keyword).
    Name(Vec<char>),
    /// A capitalised name.
    UpName(Vec<char>),
    /// A name starting with an underscore.
    Discard(Vec<char>),
    /// An integer literal, as written (its value, when it fits).
    Int(Vec<char>, Option<usize>),
    /// A float literal, as written.
    Float(Vec<char>),
    /// A string literal.
    Str(Vec<char>),
    LParen,
    RParen,
    LBracket,
    RBracket,
    LBrace,
    RBrace,
    Comma,
    Dot,
    DotDot,
    Colon,
    RArrow,
    LArrow,
    Bar,
    OrOr,
    AndAnd,
    Equal,
    EqEq,
    NotEq,
    Lt,
    Gt,
    LtEq,
    GtEq,
    LtDot,
    GtDot,
    LtEqDot,
    GtEqDot,
    Plus,
    Minus,
    Star,
    Slash,
    Percent,
    PlusDot,
    MinusDot,
    StarDot,
    SlashDot,
    LtGt,
    Pipe,
    Hash,
    Bang,
    At,
    LtLt,
    GtGt,
    KwFn,
    KwPub,
    KwLet,
    KwAssert,
    KwCase,
    KwIf,
    KwType,
    KwOpaque,
    KwConst,
    KwImport,
    KwUse,
    KwTodo,
    KwPanic,
    KwAs,
    KwEcho,
    Eof,
}

/// A token stream ends with `Eof` and holds no other `Eof`.
pub open spec fn tokens_wf(t: Seq<Tok>) -> bool {
    &&& t.len() > 0
    &&& t.last() is Eof
    &&& forall|i: int| 0 <= i < t.len() - 1 ==> !(#[trigger] t[i] is Eof)
}

/// The characters of a string.
pub fn str_chars(s: &str) -> (v: Vec<char>)
    ensures
        v@ == s@,
{
    let n = s.unicode_len();
    let mut v: Vec<char> = Vec::new();
    let mut i: usize = 0;
    while i < n
        invariant
            n == s@.len(),
            i <= n,
            v@ == s@.subrange(0, i as int),
        decreases n - i,
    {
        v.push(s.get_char(i));
        i = i + 1;
        proof {
            assert(v@ =~= s@.subrange(0, i as int));
        }
    }
    proof {
        assert(s@.subrange(0, n as int) =~= s@);
    }
    v
}

/// Whether the characters of `w` spell `k`.
pub fn word_is(w: &Vec<char>, k: &str) -> (r: bool)
    ensures
        r == (w@ == k@),
{
    let n = k.unicode_len();
    if w.len() != n {
        return false;
    }
    let mut i: usize = 0;
    while i < n
        invariant
            n == k@.len(),
            n == w@.len(),
            i <= n,
            forall|j: int| 0 <= j < i ==> w@[j] == k@[j],
        decreases n - i,
    {
        if w[i] != k.get_char(i) {
            return false;
        }
        i = i + 1;
    }
    proof {
        assert(w@ =~= k@);
    }
    true
}

/// Whether two names are spelled the same.
pub fn same_name(a: &Vec<char>, b: &Vec<char>) -> (r: bool)
    ensures
        r == (a@ == b@),
{
    if a.len() != b.len() {
        return false;
    }
    let mut i: usize = 0;
    while i < a.len()
        invariant
            a@.len() == b@.len(),
            i <= a@.len(),
            forall|j: int| 0 <= j < i ==> a@[j] == b@[j],
        decreases a@.len() - i,
    {
        if a[i] != b[i] {
            return false;
        }
        i = i + 1;
    }
    proof {
        assert(a@ =~= b@);
    }
    true
}

/// A copy of a name.
pub fn copy_name(a: &Vec<char>) -> (r: Vec<char>)
    ensures
        r@ == a@,
{
    let mut r: Vec<char> = Vec::new();
    let mut i: usize = 0;
    while i < a.len()
        invariant
            i <= a@.len(),
            r@ == a@.subrange(0, i as int),
        decreases a@.len() - i,
    {
        r.push(a[i]);
        i = i + 1;
        proof {
            assert(r@ =~= a@.subrange(0, i as int));
        }
    }
    proof {
        assert(a@.subrange(0, a@.len() as int) =~= a@);
    }
    r
}

pub open spec fn is_lower(c: char) -> bool {
    'a' <= c && c <= 'z'
}

pub open spec fn is_upper(c: char) -> bool {
    'A' <= c && c <= 'Z'
}

pub open spec fn is_digit(c: char) -> bool {
    '0' <= c && c <= '9'
}

pub open spec fn is_name_char(c: char) -> bool {
    is_lower(c) || is_upper(c) || is_digit(c) || c == '_'
}

fn lower(c: char) -> (r: bool)
    ensures
        r == is_lower(c),
{
    'a' <= c && c <= 'z'
}

fn upper(c: char) -> (r: bool)
    ensures
        r == is_upper(c),
{
    'A' <= c && c <= 'Z'
}

fn digit(c: char) -> (r: bool)
    ensures
        r == is_digit(c),
{
    '0' <= c && c <= '9'
}

fn name_char(c: char) -> (r: bool)
    ensures
        r == is_name_char(c),
{
    lower(c) || upper(c) || digit(c) || c == '_'
}

/// A character outside strings and comments that begins a token or is
/// white space: a letter, `_`, a digit, white space, or one of the
/// punctuation characters of the language; a string quote and `&` start
/// tokens only where followed by more.
pub open spec fn starts_token(c: char) -> bool {
    ||| c == ' ' || c == '\n' || c == '\t' || c == '\r'
    ||| is_lower(c) || is_upper(c) || c == '_' || is_digit(c)
    ||| c == '(' || c == ')' || c == '[' || c == ']' || c == '{' || c == '}' || c == ','
    ||| c == '.' || c == ':' || c == '#' || c == '@' || c == '%' || c == '!' || c == '='
    ||| c == '|' || c == '+' || c == '-' || c == '*' || c == '/' || c == '<' || c == '>'
}

/// A character at which lexing can fail: a string quote (a string left
/// open), `&` (not followed by another), or a character that begins no
/// token.
pub open spec fn lex_fault(c: char) -> bool {
    c == '"' || c == '&' || !starts_token(c)
}

/// The keyword spelled by `w`, if it is one.
pub open spec fn keyword_of(w: Seq<char>) -> Option<Tok> {
    if w == "fn"@ {
        Some(Tok::KwFn)
    } else if w == "pub"@ {
        Some(Tok::KwPub)
    } else if w == "let"@ {
        Some(Tok::KwLet)
    } else if w == "assert"@ {
        Some(Tok::KwAssert)
    } else if w == "case"@ {
        Some(Tok::KwCase)
    } else if w == "if"@ {
        Some(Tok::KwIf)
    } else if w == "type"@ {
        Some(Tok::KwType)
    } else if w == "opaque"@ {
        Some(Tok::KwOpaque)
    } else if w == "const"@ {
        Some(Tok::KwConst)
    } else if w == "import"@ {
        Some(Tok::KwImport)
    } else if w == "use"@ {
        Some(Tok::KwUse)
    } else if w == "todo"@ {
        Some(Tok::KwTodo)
    } else if w == "panic"@ {
        Some(Tok::KwPanic)
    } else if w == "as"@ {
        Some(Tok::KwAs)
    } else if w == "echo"@ {
        Some(Tok::KwEcho)
    } else {
        None
    }
}

/// The keyword token spelled by `w`, if any.
fn keyword(w: &Vec<char>) -> (r: Option<Tok>)
    ensures
        r matches Some(t) ==> !(t is Eof) && token_ok(t),
        r == keyword_of(w@),
{
    if word_is(w, "fn") {
        Some(Tok::KwFn)
    } else if word_is(w, "pub") {
        Some(Tok::KwPub)
    } else if word_is(w, "let") {
        Some(Tok::KwLet)
    } else if word_is(w, "assert") {
        Some(Tok::KwAssert)
    } else if word_is(w, "case") {
        Some(Tok::KwCase)
    } else if word_is(w, "if") {
        Some(Tok::KwIf)
    } else if word_is(w, "type") {
        Some(Tok::KwType)
    } else if word_is(w, "opaque") {
        Some(Tok::KwOpaque)
    } else if word_is(w, "const") {
        Some(Tok::KwConst)
    } else if word_is(w, "import") {
        Some(Tok::KwImport)
    } else if word_is(w, "use") {
        Some(Tok::KwUse)
    } else if word_is(w, "todo") {
        Some(Tok::KwTodo)
    } else if word_is(w, "panic") {
        Some(Tok::KwPanic)
    } else if word_is(w, "as") {
        Some(Tok::KwAs)
    } else if word_is(w, "echo") {
        Some(Tok::KwEcho)
    } else {
        None
    }
}

/// The characters `s[from..to]`.
fn slice_chars(s: &Vec<char>, from: usize, to: usize) -> (r: Vec<char>)
    requires
        from <= to <= s@.len(),
    ensures
        r@ == s@.subrange(from as int, to as int),
{
    let mut r: Vec<char> = Vec::new();
    let mut i = from;
    while i < to
        invariant
            from <= i <= to,
            to <= s@.len(),
            r@ == s@.subrange(from as int, i as int),
        decreases to - i,
    {
        r.push(s[i]);
        i = i + 1;
        proof {
            assert(r@ =~= s@.subrange(from as int, i as int));
        }
    }
    r
}

/// The value of a run of decimal digits and underscores; `None` when some
/// other character occurs.
pub open spec fn digits_value(s: Seq<char>) -> Option<nat>
    decreases s.len(),
{
    if s.len() == 0 {
        Some(0)
    } else {
        match digits_value(s.drop_last()) {
            None => None,
            Some(v) => if is_digit(s.last()) {
                Some(v * 10 + (s.last() as nat - 48) as nat)
            } else if s.last() == '_' {
                Some(v)
            } else {
                None
            },
        }
    }
}

proof fn lemma_digits_prefix(s: Seq<char>, i: int)
    requires
        0 <= i <= s.len(),
        digits_value(s) is Some,
    ensures
        digits_value(s.take(i)) is Some,
        digits_value(s.take(i))->0 <= digits_value(s)->0,
    decreases s.len() - i,
{
    if i < s.len() {
        lemma_digits_prefix(s, i + 1);
        assert(s.take(i + 1).drop_last() =~= s.take(i));
        let v = digits_value(s.take(i))->0;
        assert(v <= v * 10) by (nonlinear_arith);
    } else {
        assert(s.take(i) =~= s);
    }
}

/// The decimal value of a run of digits and underscores, when it fits.
fn decimal_value(s: &Vec<char>) -> (r: Option<usize>)
    ensures
        r matches Some(v) ==> digits_value(s@) == Some(v as nat),
        r is None ==> (digits_value(s@) matches Some(v) ==> v > usize::MAX),
{
    let mut v: usize = 0;
    let mut i: usize = 0;
    assert(s@.take(0) =~= Seq::<char>::empty());
    while i < s.len()
        invariant
            i <= s@.len(),
            digits_value(s@.take(i as int)) == Some(v as nat),
        decreases s@.len() - i,
    {
        let c = s[i];
        assert(s@.take(i + 1).drop_last() =~= s@.take(i as int));
        assert(s@.take(i + 1).last() == c);
        if digit(c) {
            let d = (c as u32 - '0' as u32) as usize;
            assert(d as nat == c as nat - 48);
            if v > (usize::MAX - d) / 10 {
                proof {
                    assert(v * 10 + d > usize::MAX) by (nonlinear_arith)
                        requires
                            v > (usize::MAX - d) / 10,
                            d <= 9,
                    ;
                    if digits_value(s@) is Some {
                        lemma_digits_prefix(s@, i + 1);
                    }
                }
                return None;
            }
            assert(v * 10 + d <= usize::MAX) by (nonlinear_arith)
                requires
                    v <= (usize::MAX - d) / 10,
                    d <= 9,
            ;
            v = v * 10 + d;
        } else if c != '_' {
            proof {
                if digits_value(s@) is Some {
                    lemma_digits_prefix(s@, i + 1);
                }
            }
            return None;
        }
        i = i + 1;
    }
    assert(s@.take(s@.len() as int) =~= s@);
    Some(v)
}

/// A word made of name characters that starts with a character for which
/// `first` holds.
pub open spec fn word_with(w: Seq<char>, first: spec_fn(char) -> bool) -> bool {
    &&& w.len() > 0
    &&& first(w[0])
    &&& forall|j: int| 0 <= j < w.len() ==> is_name_char(#[trigger] w[j])
}

/// What a token holds is what its kind says: names are words of name
/// characters (lower case, capitalised, or starting with `_`), numbers
/// start with a digit, a float has a decimal point and an integer none,
/// and an integer with a value carries the value of its digits.
pub open spec fn token_ok(t: Tok) -> bool {
    match t {
        Tok::Name(w) => word_with(w@, |c: char| is_lower(c)),
        Tok::UpName(w) => word_with(w@, |c: char| is_upper(c)),
        Tok::Discard(w) => word_with(w@, |c: char| c == '_'),
        Tok::Int(text, value) => {
            &&& text@.len() > 0
            &&& is_digit(text@[0])
            &&& !text@.contains('.')
            &&& (value matches Some(v) ==> digits_value(text@) == Some(v as nat))
        },
        Tok::Float(text) => text@.len() > 0 && is_digit(text@[0]) && text@.contains('.'),
        _ => true,
    }
}

/// Every token is as its kind says.
pub open spec fn tokens_ok(t: Seq<Tok>) -> bool {
    forall|i: int| 0 <= i < t.len() ==> token_ok(#[trigger] t[i])
}

/// The source text a token is spelled with.
pub open spec fn tok_text(t: Tok) -> Seq<char> {
    match t {
        Tok::Name(w) => w@,
        Tok::UpName(w) => w@,
        Tok::Discard(w) => w@,
        Tok::Int(w, _) => w@,
        Tok::Float(w) => w@,
        Tok::Str(content) => seq!['"'] + content@ + seq!['"'],
        Tok::LParen => seq!['('],
        Tok::RParen => seq![')'],
        Tok::LBracket => seq!['['],
        Tok::RBracket => seq![']'],
        Tok::LBrace => seq!['{'],
        Tok::RBrace => seq!['}'],
        Tok::Comma => seq![','],
        Tok::Dot => seq!['.'],
        Tok::DotDot => seq!['.', '.'],
        Tok::Colon => seq![':'],
        Tok::RArrow => seq!['-', '>'],
        Tok::LArrow => seq!['<', '-'],
        Tok::Bar => seq!['|'],
        Tok::OrOr => seq!['|', '|'],
        Tok::AndAnd => seq!['&', '&'],
        Tok::Equal => seq!['='],
        Tok::EqEq => seq!['=', '='],
        Tok::NotEq => seq!['!', '='],
        Tok::Lt => seq!['<'],
        Tok::Gt => seq!['>'],
        Tok::LtEq => seq!['<', '='],
        Tok::GtEq => seq!['>', '='],
        Tok::LtDot => seq!['<', '.'],
        Tok::GtDot => seq!['>', '.'],
        Tok::LtEqDot => seq!['<', '=', '.'],
        Tok::GtEqDot => seq!['>', '=', '.'],
        Tok::Plus => seq!['+'],
        Tok::Minus => seq!['-'],
        Tok::Star => seq!['*'],
        Tok::Slash => seq!['/'],
        Tok::Percent => seq!['%'],
        Tok::PlusDot => seq!['+', '.'],
        Tok::MinusDot => seq!['-', '.'],
        Tok::StarDot => seq!['*', '.'],
        Tok::SlashDot => seq!['/', '.'],
        Tok::LtGt => seq!['<', '>'],
        Tok::Pipe => seq!['|', '>'],
        Tok::Hash => seq!['#'],
        Tok::Bang => seq!['!'],
        Tok::At => seq!['@'],
        Tok::LtLt => seq!['<', '<'],
        Tok::GtGt => seq!['>', '>'],
        Tok::KwFn => seq!['f', 'n'],
        Tok::KwPub => seq!['p', 'u', 'b'],
        Tok::KwLet => seq!['l', 'e', 't'],
        Tok::KwAssert => seq!['a', 's', 's', 'e', 'r', 't'],
        Tok::KwCase => seq!['c', 'a', 's', 'e'],
        Tok::KwIf => seq!['i', 'f'],
        Tok::KwType => seq!['t', 'y', 'p', 'e'],
        Tok::KwOpaque => seq!['o', 'p', 'a', 'q', 'u', 'e'],
        Tok::KwConst => seq!['c', 'o', 'n', 's', 't'],
        Tok::KwImport => seq!['i', 'm', 'p', 'o', 'r', 't'],
        Tok::KwUse => seq!['u', 's', 'e'],
        Tok::KwTodo => seq!['t', 'o', 'd', 'o'],
        Tok::KwPanic => seq!['p', 'a', 'n', 'i', 'c'],
        Tok::KwAs => seq!['a', 's'],
        Tok::KwEcho => seq!['e', 'c', 'h', 'o'],
        Tok::Eof => Seq::empty(),
    }
}

/// White space between tokens.
pub open spec fn is_space(c: char) -> bool {
    c == ' ' || c == '\n' || c == '\t' || c == '\r'
}

/// Position `j` lies in a line comment that starts at or after `a`: a `//`
/// at `c` with no line break from `c` to `j`.
pub open spec fn in_comment(src: Seq<char>, a: int, j: int) -> bool {
    exists|c: int|
        #![trigger src[c]]
        a <= c <= j && c + 1 < src.len() && src[c] == '/' && src[c + 1] == '/' && forall|t: int|
            c <= t <= j ==> src[t] != '\n'
}

/// The text `src[a..b]` holds only white space and line comments.
pub open spec fn blank_gap(src: Seq<char>, a: int, b: int) -> bool {
    forall|j: int| a <= j < b ==> is_space(#[trigger] src[j]) || in_comment(src, a, j)
}

/// The end of token `k` placed at `ps[k]`.
pub open spec fn tok_end(toks: Seq<Tok>, ps: Seq<int>, k: int) -> int {
    ps[k] + tok_text(toks[k]).len()
}

/// The tokens `toks`, placed at the positions `ps`, spell `src[0..upto]`:
/// each token's text stands at its position, in order, and what lies
/// before, between and after them is white space and line comments.
pub open spec fn spelled(src: Seq<char>, toks: Seq<Tok>, ps: Seq<int>, upto: int) -> bool {
    &&& ps.len() == toks.len()
    &&& 0 <= upto <= src.len()
    &&& forall|k: int|
        0 <= k < toks.len() ==> 0 <= #[trigger] ps[k] && tok_end(toks, ps, k) <= upto && src.subrange(
            ps[k],
            tok_end(toks, ps, k),
        ) == tok_text(toks[k])
    &&& forall|k: int|
        0 <= k < toks.len() - 1 ==> tok_end(toks, ps, k) <= ps[k + 1] && blank_gap(
            src,
            #[trigger] tok_end(toks, ps, k),
            ps[k + 1],
        )
    &&& blank_gap(src, 0, if toks.len() == 0 { upto } else { ps[0] })
    &&& toks.len() > 0 ==> blank_gap(src, tok_end(toks, ps, toks.len() - 1), upto)
}

/// A token spelled by fixed punctuation characters.
pub open spec fn is_punct(t: Tok) -> bool {
    match t {
        Tok::Name(_) | Tok::UpName(_) | Tok::Discard(_) | Tok::Int(_, _) | Tok::Float(_)
        | Tok::Str(_) | Tok::Eof => false,
        Tok::KwFn | Tok::KwPub | Tok::KwLet | Tok::KwAssert | Tok::KwCase | Tok::KwIf
        | Tok::KwType | Tok::KwOpaque | Tok::KwConst | Tok::KwImport | Tok::KwUse | Tok::KwTodo
        | Tok::KwPanic | Tok::KwAs | Tok::KwEcho => false,
        _ => true,
    }
}

/// The punctuation token spelled by `s`, if any.
pub open spec fn punct_of(s: Seq<char>) -> Option<Tok> {
    if s.len() == 1 {
        if s[0] == '(' {
            Some(Tok::LParen)
        } else if s[0] == ')' {
            Some(Tok::RParen)
        } else if s[0] == '[' {
            Some(Tok::LBracket)
        } else if s[0] == ']' {
            Some(Tok::RBracket)
        } else if s[0] == '{' {
            Some(Tok::LBrace)
        } else if s[0] == '}' {
            Some(Tok::RBrace)
        } else if s[0] == ',' {
            Some(Tok::Comma)
        } else if s[0] == '.' {
            Some(Tok::Dot)
        } else if s[0] == ':' {
            Some(Tok::Colon)
        } else if s[0] == '|' {
            Some(Tok::Bar)
        } else if s[0] == '=' {
            Some(Tok::Equal)
        } else if s[0] == '<' {
            Some(Tok::Lt)
        } else if s[0] == '>' {
            Some(Tok::Gt)
        } else if s[0] == '+' {
            Some(Tok::Plus)
        } else if s[0] == '-' {
            Some(Tok::Minus)
        } else if s[0] == '*' {
            Some(Tok::Star)
        } else if s[0] == '/' {
            Some(Tok::Slash)
        } else if s[0] == '%' {
            Some(Tok::Percent)
        } else if s[0] == '#' {
            Some(Tok::Hash)
        } else if s[0] == '!' {
            Some(Tok::Bang)
        } else if s[0] == '@' {
            Some(Tok::At)
        } else {
            None
        }
    } else if s.len() == 2 {
        if s[0] == '.' && s[1] == '.' {
            Some(Tok::DotDot)
        } else if s[0] == '-' && s[1] == '>' {
            Some(Tok::RArrow)
        } else if s[0] == '<' && s[1] == '-' {
            Some(Tok::LArrow)
        } else if s[0] == '|' && s[1] == '|' {
            Some(Tok::OrOr)
        } else if s[0] == '&' && s[1] == '&' {
            Some(Tok::AndAnd)
        } else if s[0] == '=' && s[1] == '=' {
            Some(Tok::EqEq)
        } else if s[0] == '!' && s[1] == '=' {
            Some(Tok::NotEq)
        } else if s[0] == '<' && s[1] == '=' {
            Some(Tok::LtEq)
        } else if s[0] == '>' && s[1] == '=' {
            Some(Tok::GtEq)
        } else if s[0] == '<' && s[1] == '.' {
            Some(Tok::LtDot)
        } else if s[0] == '>' && s[1] == '.' {
            Some(Tok::GtDot)
        } else if s[0] == '+' && s[1] == '.' {
            Some(Tok::PlusDot)
        } else if s[0] == '-' && s[1] == '.' {
            Some(Tok::MinusDot)
        } else if s[0] == '*' && s[1] == '.' {
            Some(Tok::StarDot)
        } else if s[0] == '/' && s[1] == '.' {
            Some(Tok::SlashDot)
        } else if s[0] == '<' && s[1] == '>' {
            Some(Tok::LtGt)
        } else if s[0] == '|' && s[1] == '>' {
            Some(Tok::Pipe)
        } else if s[0] == '<' && s[1] == '<' {
            Some(Tok::LtLt)
        } else if s[0] == '>' && s[1] == '>' {
            Some(Tok::GtGt)
        } else {
            None
        }
    } else if s.len() == 3 && s[1] == '=' && s[2] == '.' {
        if s[0] == '<' {
            Some(Tok::LtEqDot)
        } else if s[0] == '>' {
            Some(Tok::GtEqDot)
        } else {
            None
        }
    } else {
        None
    }
}

/// No punctuation token is spelled `s`.
pub open spec fn no_punct_spelled(s: Seq<char>) -> bool {
    forall|u: Tok| is_punct(u) ==> #[trigger] tok_text(u) != s
}

/// Each punctuation token is the longest that the text allows: together
/// with the character that follows it, it spells no punctuation token.
pub open spec fn longest(src: Seq<char>, toks: Seq<Tok>, ps: Seq<int>) -> bool {
    forall|k: int|
        0 <= k < toks.len() && is_punct(#[trigger] toks[k]) && tok_end(toks, ps, k) < src.len()
            ==> no_punct_spelled(tok_text(toks[k]).push(src[tok_end(toks, ps, k)]))
}

/// Each punctuation token is read back from its own text.
pub proof fn lemma_punct_text(t: Tok)
    ensures
        is_punct(t) ==> punct_of(tok_text(t)) == Some(t),
{
}

/// Text that reads as no punctuation token spells none.
pub proof fn lemma_no_punct(s: Seq<char>)
    requires
        punct_of(s) is None,
    ensures
        no_punct_spelled(s),
{
    assert forall|u: Tok| is_punct(u) implies #[trigger] tok_text(u) != s by {
        lemma_punct_text(u);
    }
}

/// Punctuation is one to three characters long, and only `<=.` and `>=.`
/// take three.
proof fn lemma_punct_len(t: Tok)
    requires
        is_punct(t),
    ensures
        1 <= tok_text(t).len() <= 3,
        tok_text(t).len() == 3 ==> t == Tok::LtEqDot || t == Tok::GtEqDot,
{
}

/// A punctuation token that begins a longer one leaves, with one more
/// character, a punctuation token's text.
proof fn lemma_punct_prefix(t: Tok, u: Tok)
    requires
        is_punct(t),
        is_punct(u),
        tok_text(t).len() < tok_text(u).len(),
        tok_text(t) == tok_text(u).take(tok_text(t).len() as int),
    ensures
        !no_punct_spelled(tok_text(u).take(tok_text(t).len() as int + 1)),
{
    lemma_punct_len(t);
    lemma_punct_len(u);
    let l = tok_text(t).len() as int;
    let q = tok_text(u).take(l + 1);
    if tok_text(u).len() == l + 1 {
        assert(q =~= tok_text(u));
    } else if u == Tok::LtEqDot {
        assert(tok_text(Tok::LtEq) =~= q);
    } else {
        assert(tok_text(Tok::GtEq) =~= q);
    }
}

/// Operators are read whole: where a lexing places a punctuation token,
/// no longer punctuation token is spelled in the source, so that `*.` is
/// read as one token and never as `*` followed by `.`.
pub proof fn lemma_operator_read_whole(src: Seq<char>, toks: Seq<Tok>, ps: Seq<int>, k: int, u: Tok)
    requires
        spelled(src, toks, ps, src.len() as int),
        longest(src, toks, ps),
        0 <= k < toks.len(),
        is_punct(toks[k]),
        is_punct(u),
        ps[k] + tok_text(u).len() <= src.len(),
        src.subrange(ps[k], ps[k] + tok_text(u).len()) == tok_text(u),
    ensures
        tok_text(u).len() <= tok_text(toks[k]).len(),
{
    let t = toks[k];
    let p = ps[k];
    let l = tok_text(t).len() as int;
    let e = tok_end(toks, ps, k);
    assert(0 <= p && e <= src.len() && src.subrange(p, e) == tok_text(t));
    if tok_text(u).len() > l {
        let w = tok_text(u);
        assert(tok_text(t) =~= w.take(l)) by {
            assert forall|j: int| 0 <= j < l implies tok_text(t)[j] == w[j] by {
                assert(src.subrange(p, e)[j] == src[p + j]);
                assert(src.subrange(p, p + w.len())[j] == src[p + j]);
            }
        }
        assert(tok_text(t).push(src[e]) =~= w.take(l + 1)) by {
            assert(src.subrange(p, p + w.len())[l] == src[e]);
        }
        lemma_punct_prefix(t, u);
        assert(no_punct_spelled(tok_text(t).push(src[e])));
    }
}

/// A token that is not cut short extends a longest reading.
proof fn lemma_longest_push(src: Seq<char>, toks: Seq<Tok>, ps: Seq<int>, t: Tok, p: int)
    requires
        longest(src, toks, ps),
        ps.len() == toks.len(),
        is_punct(t) && p + tok_text(t).len() < src.len() ==> no_punct_spelled(
            tok_text(t).push(src[p + tok_text(t).len()]),
        ),
    ensures
        longest(src, toks.push(t), ps.push(p)),
{
    let toks2 = toks.push(t);
    let ps2 = ps.push(p);
    assert forall|k: int|
        0 <= k < toks2.len() && is_punct(#[trigger] toks2[k]) && tok_end(toks2, ps2, k) < src.len()
            implies no_punct_spelled(tok_text(toks2[k]).push(src[tok_end(toks2, ps2, k)])) by {
        if k < toks.len() {
            assert(toks2[k] == toks[k]);
            assert(tok_end(toks2, ps2, k) == tok_end(toks, ps, k));
        }
    }
}

/// The tokens lex the whole of `src`: some placement spells it, reading
/// each punctuation token as long as it goes, and no name token is a
/// keyword.
pub open spec fn lexes(src: Seq<char>, toks: Seq<Tok>) -> bool {
    &&& exists|ps: Seq<int>|
        #![trigger spelled(src, toks, ps, src.len() as int)]
        spelled(src, toks, ps, src.len() as int) && longest(src, toks, ps)
    &&& forall|k: int| 0 <= k < toks.len() && toks[k] is Name ==> keyword_of(#[trigger] toks[k]->Name_0@) is None
}

/// A keyword token is spelled as the word it was read from.
proof fn lemma_keyword_text(w: Seq<char>)
    ensures
        keyword_of(w) matches Some(k) ==> tok_text(k) == w && !is_punct(k),
{
    reveal_strlit("fn");
    reveal_strlit("pub");
    reveal_strlit("let");
    reveal_strlit("assert");
    reveal_strlit("case");
    reveal_strlit("if");
    reveal_strlit("type");
    reveal_strlit("opaque");
    reveal_strlit("const");
    reveal_strlit("import");
    reveal_strlit("use");
    reveal_strlit("todo");
    reveal_strlit("panic");
    reveal_strlit("as");
    reveal_strlit("echo");
}

/// Text that is blank extends a spelling.
proof fn lemma_spelled_blank(src: Seq<char>, toks: Seq<Tok>, ps: Seq<int>, i: int, j: int)
    requires
        spelled(src, toks, ps, i),
        i <= j <= src.len(),
        blank_gap(src, i, j),
    ensures
        spelled(src, toks, ps, j),
{
    let g = if toks.len() == 0 { 0 } else { tok_end(toks, ps, toks.len() - 1) };
    assert(g <= i);
    assert forall|t: int| g <= t < j implies is_space(#[trigger] src[t]) || in_comment(src, g, t) by {
        if t >= i {
            if !is_space(src[t]) {
                let c = choose|c: int|
                    #![trigger src[c]]
                    i <= c <= t && c + 1 < src.len() && src[c] == '/' && src[c + 1] == '/' && forall|t2: int|
                        c <= t2 <= t ==> src[t2] != '\n';
                assert(g <= c);
            }
        } else {
            if !is_space(src[t]) {
                assert(in_comment(src, g, t));
            }
        }
    }
    if toks.len() == 0 {
        assert(blank_gap(src, 0, j));
    }
}

/// A token spelled right where the blank text ends extends a spelling.
proof fn lemma_spelled_push(src: Seq<char>, toks: Seq<Tok>, ps: Seq<int>, i: int, t: Tok, e: int)
    requires
        spelled(src, toks, ps, i),
        i + tok_text(t).len() == e,
        e <= src.len(),
        src.subrange(i, e) == tok_text(t),
    ensures
        spelled(src, toks.push(t), ps.push(i), e),
{
    let toks2 = toks.push(t);
    let ps2 = ps.push(i);
    assert forall|k: int| 0 <= k < toks.len() implies toks2[k] == toks[k] && ps2[k] == ps[k] by {}
    assert(tok_end(toks2, ps2, toks.len() as int) == e);
    assert forall|k: int| 0 <= k < toks2.len() - 1 implies tok_end(toks2, ps2, k) <= ps2[k + 1] && blank_gap(
        src,
        #[trigger] tok_end(toks2, ps2, k),
        ps2[k + 1],
    ) by {
        assert(tok_end(toks2, ps2, k) == tok_end(toks, ps, k));
        if k == toks.len() - 1 {
            assert(ps2[k + 1] == i);
        } else {
            assert(ps2[k + 1] == ps[k + 1]);
        }
    }
    if toks.len() > 0 {
        assert(ps2[0] == ps[0]);
    }
    assert(blank_gap(src, e, e));
}

/// Appends a token other than `Eof`.
fn push_tok(toks: &mut Vec<Tok>, tok: Tok)
    requires
        !(tok is Eof),
        token_ok(tok),
    ensures
        final(toks)@ == old(toks)@.push(tok),
        tokens_ok(old(toks)@) ==> tokens_ok(final(toks)@),
{
    toks.push(tok);
}

/// Reads a number that starts at `start`: where it ends, and whether it
/// is a float. A number after a `.` is an integer (a tuple index).
fn scan_number(src: &Vec<char>, start: usize, after_dot: bool) -> (r: (usize, bool))
    requires
        start < src@.len(),
        is_digit(src@[start as int]),
    ensures
        start < r.0 <= src@.len(),
        r.1 ==> exists|d: int| start <= d < r.0 && #[trigger] src@[d] == '.',
        !r.1 ==> forall|j: int| start <= j < r.0 ==> #[trigger] src@[j] != '.',
{
    let n = src.len();
    let mut i = start;
    let c = src[i];
    let next: char = if i + 1 < n {
        src[i + 1]
    } else {
        ' '
    };
    let mut is_float = false;
    let ghost mut dot: int = 0;
    if c == '0' && (next == 'x' || next == 'o' || next == 'b') && !after_dot {
        i = i + 2;
        while i < n && name_char(src[i])
            invariant
                start < i <= n,
                n == src@.len(),
                forall|j: int| start + 2 <= j < i ==> is_name_char(#[trigger] src@[j]),
            decreases n - i,
        {
            i = i + 1;
        }
    } else {
        while i < n && (digit(src[i]) || src[i] == '_')
            invariant
                start <= i <= n,
                n == src@.len(),
                forall|j: int| start <= j < i ==> is_digit(#[trigger] src@[j]) || src@[j] == '_',
            decreases n - i,
        {
            i = i + 1;
        }
        if !after_dot && i < n && src[i] == '.' && !(i + 1 < n && src[i + 1] == '.') {
            is_float = true;
            proof {
                dot = i as int;
            }
            i = i + 1;
            while i < n && (digit(src[i]) || src[i] == '_')
                invariant
                    start <= dot < i <= n,
                    n == src@.len(),
                decreases n - i,
            {
                i = i + 1;
            }
            if i < n && src[i] == 'e' {
                i = i + 1;
                if i < n && src[i] == '-' {
                    i = i + 1;
                }
                while i < n && digit(src[i])
                    invariant
                        start <= dot < i <= n,
                        n == src@.len(),
                    decreases n - i,
                {
                    i = i + 1;
                }
            }
        }
    }
    proof {
        if is_float {
            assert(src@[dot] == '.');
        }
    }
    (i, is_float)
}

/// The number token that starts at `start`, and where it ends.
fn number_token(src: &Vec<char>, start: usize, after_dot: bool) -> (r: (Tok, usize))
    requires
        start < src@.len(),
        is_digit(src@[start as int]),
    ensures
        start < r.1 <= src@.len(),
        r.0 is Int || r.0 is Float,
        token_ok(r.0),
        tok_text(r.0) == src@.subrange(start as int, r.1 as int),
{
    let (end, is_float) = scan_number(src, start, after_dot);
    let w = slice_chars(src, start, end);
    proof {
        assert(w@[0] == src@[start as int]);
        if is_float {
            let dot = choose|d: int| start <= d < end && #[trigger] src@[d] == '.';
            assert(w@[dot - start] == '.');
        } else {
            assert forall|j: int| 0 <= j < w@.len() implies w@[j] != '.' by {
                assert(w@[j] == src@[start + j]);
            }
        }
    }
    let tok = if is_float {
        Tok::Float(w)
    } else {
        let value = decimal_value(&w);
        Tok::Int(w, value)
    };
    (tok, end)
}

/// Splits source text into tokens; on failure, the position of the first
/// character that starts no token.
#[verifier::rlimit(100)]
#[verifier::spinoff_prover]
pub fn lex(src: &Vec<char>) -> (r: Result<Vec<Tok>, usize>)
    ensures
        r matches Ok(t) ==> tokens_wf(t@),
        r matches Ok(t) ==> tokens_ok(t@),
        r matches Ok(t) ==> lexes(src@, t@.drop_last()),
        r matches Err(p) ==> p < src@.len() && lex_fault(src@[p as int]),
        (forall|k: int| 0 <= k < src@.len() ==> !lex_fault(#[trigger] src@[k])) ==> r is Ok,
{
    let n = src.len();
    let mut toks: Vec<Tok> = Vec::new();
    let mut i: usize = 0;
    let ghost mut ps: Seq<int> = Seq::empty();
    while i < n
        invariant
            n == src@.len(),
            i <= n,
            forall|j: int| 0 <= j < toks@.len() ==> !(#[trigger] toks@[j] is Eof),
            tokens_ok(toks@),
            spelled(src@, toks@, ps, i as int),
            longest(src@, toks@, ps),
            forall|k: int|
                0 <= k < toks@.len() && toks@[k] is Name ==> keyword_of(
                    #[trigger] toks@[k]->Name_0@,
                ) is None,
        decreases n - i,
    {
        let c = src[i];
        let next: char = if i + 1 < n {
            src[i + 1]
        } else {
            ' '
        };
        let next2: char = if n - i > 2 {
            src[i + 2]
        } else {
            ' '
        };
        if c == ' ' || c == '\n' || c == '\t' || c == '\r' {
            proof {
                assert(is_space(src@[i as int]));
                lemma_spelled_blank(src@, toks@, ps, i as int, i + 1);
            }
            i = i + 1;
        } else if c == '/' && next == '/' {
            let start = i;
            i = i + 1;
            while i < n && src[i] != '\n'
                invariant
                    start < i <= n,
                    n == src@.len(),
                    forall|t: int| start <= t < i ==> src@[t] != '\n',
                decreases n - i,
            {
                i = i + 1;
            }
            proof {
                assert(start + 1 < n && src@[start as int] == '/' && src@[start + 1] == '/');
                assert forall|j: int| start <= j < i implies is_space(#[trigger] src@[j]) || in_comment(
                    src@,
                    start as int,
                    j,
                ) by {
                    assert(src@[start as int] == '/');
                }
                lemma_spelled_blank(src@, toks@, ps, start as int, i as int);
            }
        } else if lower(c) || c == '_' || upper(c) {
            let start = i;
            i = i + 1;
            while i < n && name_char(src[i])
                invariant
                    start < i <= n,
                    n == src@.len(),
                    forall|j: int| start < j < i ==> is_name_char(#[trigger] src@[j]),
                decreases n - i,
            {
                i = i + 1;
            }
            let w = slice_chars(src, start, i);
            assert(forall|j: int| 0 <= j < w@.len() ==> is_name_char(#[trigger] w@[j])) by {
                assert forall|j: int| 0 <= j < w@.len() implies is_name_char(#[trigger] w@[j]) by {
                    assert(w@[j] == src@[start + j]);
                }
            }
            proof {
                lemma_keyword_text(w@);
            }
            let tok = if c == '_' {
                Tok::Discard(w)
            } else if upper(c) {
                Tok::UpName(w)
            } else {
                match keyword(&w) {
                    Some(k) => k,
                    None => Tok::Name(w),
                }
            };
            proof {
                lemma_longest_push(src@, toks@, ps, tok, start as int);
                lemma_spelled_push(src@, toks@, ps, start as int, tok, i as int);
                ps = ps.push(start as int);
            }
            push_tok(&mut toks, tok);
        } else if digit(c) {
            let after_dot = toks.len() > 0 && matches!(toks[toks.len() - 1], Tok::Dot);
            let start = i;
            let (tok, end) = number_token(src, start, after_dot);
            i = end;
            proof {
                lemma_longest_push(src@, toks@, ps, tok, start as int);
                lemma_spelled_push(src@, toks@, ps, start as int, tok, i as int);
                ps = ps.push(start as int);
            }
            push_tok(&mut toks, tok);
        } else if c == '"' {
            let start = i;
            i = i + 1;
            let mut content: Vec<char> = Vec::new();
            while i < n && src[i] != '"'
                invariant
                    start < i <= n,
                    n == src@.len(),
                    content@ == src@.subrange(start + 1, i as int),
                decreases n - i,
            {
                if src[i] == '\\' && i + 1 < n {
                    content.push(src[i]);
                    content.push(src[i + 1]);
                    i = i + 2;
                } else {
                    content.push(src[i]);
                    i = i + 1;
                }
                assert(content@ =~= src@.subrange(start + 1, i as int));
            }
            if i >= n {
                return Err(start);
            }
            i = i + 1;
            let tok = Tok::Str(content);
            proof {
                assert(tok_text(tok) =~= src@.subrange(start as int, i as int));
                lemma_longest_push(src@, toks@, ps, tok, start as int);
                lemma_spelled_push(src@, toks@, ps, start as int, tok, i as int);
                ps = ps.push(start as int);
            }
            push_tok(&mut toks, tok);
        } else {
            let (tok, width): (Tok, usize) = if c == '(' {
                (Tok::LParen, 1)
            } else if c == ')' {
                (Tok::RParen, 1)
            } else if c == '[' {
                (Tok::LBracket, 1)
            } else if c == ']' {
                (Tok::RBracket, 1)
            } else if c == '{' {
                (Tok::LBrace, 1)
            } else if c == '}' {
                (Tok::RBrace, 1)
            } else if c == ',' {
                (Tok::Comma, 1)
            } else if c == '.' {
                if next == '.' {
                    (Tok::DotDot, 2)
                } else {
                    (Tok::Dot, 1)
                }
            } else if c == ':' {
                (Tok::Colon, 1)
            } else if c == '#' {
                (Tok::Hash, 1)
            } else if c == '@' {
                (Tok::At, 1)
            } else if c == '%' {
                (Tok::Percent, 1)
            } else if c == '!' {
                if next == '=' {
                    (Tok::NotEq, 2)
                } else {
                    (Tok::Bang, 1)
                }
            } else if c == '=' {
                if next == '=' {
                    (Tok::EqEq, 2)
                } else {
                    (Tok::Equal, 1)
                }
            } else if c == '|' {
                if next == '|' {
                    (Tok::OrOr, 2)
                } else if next == '>' {
                    (Tok::Pipe, 2)
                } else {
                    (Tok::Bar, 1)
                }
            } else if c == '&' {
                if next == '&' {
                    (Tok::AndAnd, 2)
                } else {
                    return Err(i);
                }
            } else if c == '+' {
                if next == '.' {
                    (Tok::PlusDot, 2)
                } else {
                    (Tok::Plus, 1)
                }
            } else if c == '-' {
                if next == '>' {
                    (Tok::RArrow, 2)
                } else if next == '.' {
                    (Tok::MinusDot, 2)
                } else {
                    (Tok::Minus, 1)
                }
            } else if c == '*' {
                if next == '.' {
                    (Tok::StarDot, 2)
                } else {
                    (Tok::Star, 1)
                }
            } else if c == '/' {
                if next == '.' {
                    (Tok::SlashDot, 2)
                } else {
                    (Tok::Slash, 1)
                }
            } else if c == '<' {
                if next == '<' {
                    (Tok::LtLt, 2)
                } else if next == '>' {
                    (Tok::LtGt, 2)
                } else if next == '-' {
                    (Tok::LArrow, 2)
                } else if next == '=' {
                    if next2 == '.' {
                        (Tok::LtEqDot, 3)
                    } else {
                        (Tok::LtEq, 2)
                    }
                } else if next == '.' {
                    (Tok::LtDot, 2)
                } else {
                    (Tok::Lt, 1)
                }
            } else if c == '>' {
                if next == '>' {
                    (Tok::GtGt, 2)
                } else if next == '=' {
                    if next2 == '.' {
                        (Tok::GtEqDot, 3)
                    } else {
                        (Tok::GtEq, 2)
                    }
                } else if next == '.' {
                    (Tok::GtDot, 2)
                } else {
                    (Tok::Gt, 1)
                }
            } else {
                return Err(i);
            };
            if width > n - i {
                return Err(i);
            }
            proof {
                assert(tok_text(tok) =~= src@.subrange(i as int, i + width));
                if i + width < n {
                    let s = tok_text(tok).push(src@[i + width]);
                    assert(s =~= src@.subrange(i as int, i + width + 1));
                    assert(s[0] == c);
                    assert(width > 1 ==> s[1] == next);
                    assert(width > 2 ==> s[2] == next2);
                    assert(punct_of(s) is None);
                    lemma_no_punct(s);
                }
                lemma_longest_push(src@, toks@, ps, tok, i as int);
                lemma_spelled_push(src@, toks@, ps, i as int, tok, i + width);
                ps = ps.push(i as int);
            }
            i = i + width;
            push_tok(&mut toks, tok);
        }
    }
    let ghost body = toks@;
    toks.push(Tok::Eof);
    assert(toks@.drop_last() =~= body);
    assert(spelled(src@, toks@.drop_last(), ps, src@.len() as int) && longest(
        src@,
        toks@.drop_last(),
        ps,
    ));
    assert(tokens_ok(toks@)) by {
        assert forall|j: int| 0 <= j < toks@.len() - 1 implies toks@[j] == toks@.drop_last()[j] by {}
    }
    Ok(toks)
}

} // verus!
