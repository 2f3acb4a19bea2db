use gleam_typing::api::{
    check_statements, compile_module, infer, infer_module, module_error, parse_source_statements,
    syntax_error,
};
use gleam_typing::args::place_args;
use gleam_typing::env::{fn_parts, fn_ty, tuple_parts, tuple_ty, Publicity};
use gleam_typing::lexer::{lex, Tok};
use gleam_typing::main_function::{
    assert_suitable_main_function, Implementations, MainFunctionError, Origin, ValueConstructor,
    ValueConstructorVariant,
};
use gleam_typing::module::Target;
use gleam_typing::exhaustive::{is_useful, Node};
use gleam_typing::module::{is_internal_module, join_path, reachability};
use gleam_typing::print::print_type;
use gleam_typing::types::Ty;

fn chars(s: &str) -> Vec<char> {
    s.chars().collect()
}

fn inferred(src: &str) -> String {
    infer(src).ok().expect("should infer")
}

fn module_fails(src: &str) -> String {
    module_error(src, vec![]).expect("should fail to check")
}

#[test]
fn case_missing_a_variant_is_an_error() {
    let text = module_fails(
        "pub type Wibble { Wibble Wobble }
pub fn main(x) { case x { Wibble -> 1 } }",
    );
    assert_eq!(
        text,
        "error: Inexhaustive patterns: a case expression does not match every value\n  in /src/one/two.gleam\n"
    );
}

#[test]
fn case_covering_every_variant_checks() {
    let values = infer_module(
        "pub type Wibble { Wibble Wobble }
pub fn main(x) { case x { Wibble -> 1 Wobble -> 2 } }",
        vec![],
    )
    .ok()
    .expect("should infer");
    assert_eq!(
        values,
        vec![
            ("Wibble".to_string(), "Wibble".to_string()),
            ("Wobble".to_string(), "Wibble".to_string()),
            ("main".to_string(), "fn(Wibble) -> Int".to_string()),
        ]
    );
}

#[test]
fn catch_all_clause_makes_a_case_exhaustive() {
    assert_eq!(inferred("case 1 { 1 -> 2 _ -> 3 }"), "Int");
    assert_eq!(inferred("case \"a\" { \"b\" -> 1 x -> 2 }"), "Int");
}

#[test]
fn literal_patterns_alone_are_not_exhaustive() {
    assert!(infer("case 1 { 1 -> 2 2 -> 3 }").is_err());
}

#[test]
fn guarded_clauses_do_not_count_for_exhaustiveness() {
    assert!(infer("case 1 { x if x > 0 -> 1 }").is_err());
    assert_eq!(inferred("case 1 { x if x > 0 -> 1 _ -> 0 }"), "Int");
}

#[test]
fn list_exhaustiveness() {
    assert_eq!(inferred("case [1] { [] -> 0 [_, ..] -> 1 }"), "Int");
    assert!(infer("case [1] { [] -> 0 }").is_err());
    assert!(infer("case [1] { [] -> 0 [_] -> 1 }").is_err());
    assert_eq!(inferred("case [1] { [] -> 0 [_] -> 1 [_, _, ..] -> 2 }"), "Int");
}

#[test]
fn tuple_and_bool_exhaustiveness() {
    assert_eq!(
        inferred("case #(True, False) { #(True, _) -> 1 #(False, _) -> 2 }"),
        "Int"
    );
    assert!(infer("case #(True, False) { #(True, _) -> 1 #(_, True) -> 2 }").is_err());
    assert_eq!(inferred("case Ok(1) { Ok(x) -> x Error(_) -> 0 }"), "Int");
}

#[test]
fn alternative_patterns_count_for_exhaustiveness() {
    assert_eq!(inferred("case True { True | False -> 1 }"), "Int");
}

#[test]
fn refutable_let_is_an_error_but_let_assert_is_not() {
    assert!(infer("let [a] = [1] a").is_err());
    assert_eq!(inferred("let assert [a] = [1] a"), "Int");
    assert_eq!(inferred("let #(a, b) = #(1, 2.0) b"), "Float");
}

#[test]
fn variables_past_the_alphabet_are_named_aa_ab() {
    let params: Vec<String> = (0..28).map(|i| format!("x{}", i)).collect();
    let src = format!("fn({}) {{ x27 }}", params.join(", "));
    let letters: Vec<String> = "abcdefghijklmnopqrstuvwxyz"
        .chars()
        .map(|c| c.to_string())
        .chain(vec!["aa".to_string(), "ab".to_string()])
        .collect();
    let expected = format!("fn({}) -> ab", letters.join(", "));
    assert_eq!(inferred(&src), expected);
}

#[test]
fn printing_names_variables_by_first_appearance() {
    let names: Vec<Vec<char>> = vec![chars("Int")];
    let t = fn_ty(&vec![Ty::Var(7), Ty::Var(3)], Ty::Var(7));
    assert_eq!(print_type(&names, &t).iter().collect::<String>(), "fn(a, b) -> a");
    let renamed = fn_ty(&vec![Ty::Var(1), Ty::Gen(0)], Ty::Var(1));
    assert_eq!(print_type(&names, &renamed).iter().collect::<String>(), "fn(a, b) -> a");
}

#[test]
fn function_and_tuple_types_come_apart_again() {
    let params = vec![Ty::Con(0), Ty::Var(2)];
    let t = fn_ty(&params, Ty::Con(1));
    match fn_parts(&t) {
        Some((ps, ret)) => {
            assert_eq!(ps.len(), 2);
            assert!(matches!(ps[0], Ty::Con(0)));
            assert!(matches!(ps[1], Ty::Var(2)));
            assert!(matches!(ret, Ty::Con(1)));
        }
        None => panic!("a function type"),
    }
    let tup = tuple_ty(&params);
    assert_eq!(tuple_parts(&tup).map(|es| es.len()), Some(2));
    assert!(fn_parts(&tup).is_none());
    assert!(tuple_parts(&t).is_none());
}

#[test]
fn labelled_arguments_go_to_their_parameters() {
    let labels = vec![Some(chars("a")), Some(chars("b")), Some(chars("c"))];
    let args = vec![None, Some(chars("c")), None];
    let slots = place_args(&labels, 3, &args, false).ok().expect("should place");
    assert_eq!(slots, vec![Some(0), Some(2), Some(1)]);
}

#[test]
fn placing_arguments_can_fail() {
    let labels = vec![Some(chars("a")), Some(chars("b"))];
    assert!(place_args(&labels, 2, &vec![Some(chars("z")), None], false).is_err());
    assert!(place_args(&labels, 2, &vec![Some(chars("a")), Some(chars("a"))], false).is_err());
    assert!(place_args(&labels, 2, &vec![None], false).is_err());
    assert_eq!(
        place_args(&labels, 2, &vec![Some(chars("b"))], true).ok(),
        Some(vec![None, Some(0)])
    );
    assert!(place_args(&labels, 2, &vec![None, None, None], true).is_err());
}

#[test]
fn labelled_call_errors_are_reported() {
    let text = module_fails(
        "fn f(a x, b y) { x + y }
pub fn main() { f(a: 1, a: 2) }",
    );
    assert!(text.starts_with("error: Duplicate argument: a\n"));
    let text = module_fails(
        "fn f(a x, b y) { x + y }
pub fn main() { f(a: 1, z: 2) }",
    );
    assert!(text.starts_with("error: Unknown label: z\n"));
}

#[test]
fn errors_are_reported_in_order() {
    let text = module_fails("type A = Foo\ntype B = Bar\n");
    assert_eq!(
        text,
        "error: Unknown type: Foo\nerror: Unknown type: Bar\n  in /src/one/two.gleam\n"
    );
}

#[test]
fn error_descriptions() {
    assert_eq!(
        module_fails("pub fn main() { x }"),
        "error: Unknown variable: x\n  in /src/one/two.gleam\n"
    );
    assert_eq!(
        module_fails("pub fn main() { 1 + 1.0 }"),
        "error: Type mismatch: expected type Int, found type Float\n  in /src/one/two.gleam\n"
    );
    assert_eq!(
        module_fails("pub fn main() { #(1, 2).5 }"),
        "error: Out of bounds tuple index: 5\n  in /src/one/two.gleam\n"
    );
}

#[test]
fn syntax_errors_are_reported() {
    let text = syntax_error("pub fn (").expect("should not parse");
    assert!(text.starts_with("error: Syntax error at position "));
    assert!(syntax_error("pub fn main() { 1 }").is_none());
}

#[test]
fn exported_values_leave_out_private_ones() {
    let values = infer_module("fn hidden() { 1 }\npub fn shown() { hidden() }", vec![])
        .ok()
        .expect("should infer");
    assert_eq!(values, vec![("shown".to_string(), "fn() -> Int".to_string())]);
}

#[test]
fn types_of_internal_modules_are_never_public() {
    let module = compile_module(
        "thepackage/internal/deep",
        "pub type Wibble\ntype Wobble",
        vec![],
    )
    .ok()
    .expect("should check");
    for entry in module.type_info.types.iter() {
        assert!(!matches!(entry.publicity, Publicity::Public));
    }
    let module = compile_module(
        "thepackage/internal",
        "pub type Wibble { Wibble }\npub fn f() { 1 }\nfn g() { 2 }\n@internal pub fn h() { 3 }",
        vec![],
    )
    .ok()
    .expect("should check");
    assert_eq!(module.type_info.values.len(), 4);
    for value in module.type_info.values.iter() {
        assert!(!matches!(value.publicity, Publicity::Public));
    }
    let module = compile_module("thepackage/wibble", "pub fn f() { 1 }", vec![])
        .ok()
        .expect("should check");
    assert!(matches!(module.type_info.values[0].publicity, Publicity::Public));
    assert!(is_internal_module(&chars("thepackage"), &chars("thepackage/internal")));
    assert!(is_internal_module(&chars("thepackage"), &chars("thepackage/internal/a")));
    assert!(!is_internal_module(&chars("thepackage"), &chars("thepackage/internals")));
    assert!(!is_internal_module(&chars("thepackage"), &chars("other/internal")));
}

#[test]
fn module_paths_join_with_slashes() {
    let path = vec![chars("gleam"), chars("dynamic"), chars("decode")];
    assert_eq!(join_path(&path).iter().collect::<String>(), "gleam/dynamic/decode");
    assert!(join_path(&vec![]).is_empty());
}

#[test]
fn reachability_follows_walks() {
    let adj = vec![
        vec![false, true, false],
        vec![false, false, true],
        vec![false, false, false],
    ];
    let r = reachability(&adj);
    assert_eq!(r[0], vec![false, true, true]);
    assert_eq!(r[1], vec![false, false, true]);
    assert_eq!(r[2], vec![false, false, false]);
    let cycle = vec![vec![false, true], vec![true, false]];
    let r = reachability(&cycle);
    assert_eq!(r[0], vec![true, true]);
    assert_eq!(r[1], vec![true, true]);
}

#[test]
fn usefulness_on_small_matrices() {
    let wib = Node::Con { idx: 0, count: 2, arity: 0 };
    let wob = Node::Con { idx: 1, count: 2, arity: 0 };
    assert_eq!(is_useful(&vec![], 1, 10), Some(true));
    assert_eq!(is_useful(&vec![vec![Node::Any]], 1, 10), Some(false));
    assert_eq!(is_useful(&vec![vec![wib]], 1, 10), Some(true));
    assert_eq!(is_useful(&vec![vec![wib], vec![wob]], 1, 10), Some(false));
    assert_eq!(is_useful(&vec![vec![Node::Lit]], 1, 10), Some(true));
    assert_eq!(is_useful(&vec![vec![wib, wob], vec![wob, Node::Any]], 2, 10), Some(true));
    assert_eq!(is_useful(&vec![vec![Node::Any]], 1, 0), None);
}

#[test]
fn mutually_recursive_functions_are_generalised_together() {
    let values = infer_module(
        "pub fn even(n) { case n { 0 -> True _ -> odd(n - 1) } }
pub fn odd(n) { case n { 0 -> False _ -> even(n - 1) } }",
        vec![],
    )
    .ok()
    .expect("should infer");
    assert_eq!(
        values,
        vec![
            ("even".to_string(), "fn(Int) -> Bool".to_string()),
            ("odd".to_string(), "fn(Int) -> Bool".to_string()),
        ]
    );
}

#[test]
fn big_integer_literals_are_ints() {
    assert_eq!(inferred("123456789012345678901234567890"), "Int");
    assert_eq!(inferred("#(1, 2, 3).2"), "Int");
}

#[test]
fn lexing_names_numbers_and_keywords() {
    let toks = lex(&chars("wibble _wobble Wubble 1_000 0x1F fn")).ok().expect("should lex");
    assert_eq!(toks.len(), 7);
    assert!(matches!(&toks[0], Tok::Name(w) if w.iter().collect::<String>() == "wibble"));
    assert!(matches!(&toks[1], Tok::Discard(w) if w.iter().collect::<String>() == "_wobble"));
    assert!(matches!(&toks[2], Tok::UpName(w) if w.iter().collect::<String>() == "Wubble"));
    assert!(matches!(&toks[3], Tok::Int(_, Some(1000))));
    assert!(matches!(&toks[4], Tok::Int(_, None)));
    assert!(matches!(&toks[5], Tok::KwFn));
    assert!(matches!(&toks[6], Tok::Eof));
    assert!(matches!(
        &lex(&chars("99999999999999999999999")).ok().expect("should lex")[0],
        Tok::Int(_, None)
    ));
    assert!(lex(&chars("1 ~ 2")).is_err());
}

#[test]
fn unification_failures_are_reported() {
    assert_eq!(
        module_fails("pub fn main() { let f = fn(x) { x(x) } f }"),
        "error: Recursive type\n  in /src/one/two.gleam\n"
    );
    assert!(infer("[1, 1.0]").is_err());
    assert_eq!(inferred("fn(x, y) { [x, y] }"), "fn(a, a) -> List(a)");
}

#[test]
fn suitable_main_functions() {
    let everywhere = || Implementations {
        gleam: true,
        uses_erlang_externals: false,
        uses_javascript_externals: false,
        can_run_on_erlang: true,
        can_run_on_javascript: true,
    };
    let main = |arity: usize| ValueConstructor {
        publicity: Publicity::Public,
        type_: fn_ty(&vec![], Ty::Con(0)),
        variant: ValueConstructorVariant::ModuleFn {
            name: chars("main"),
            arity,
            module: chars("app"),
            external_erlang: None,
            external_javascript: None,
            implementations: everywhere(),
        },
    };
    assert!(assert_suitable_main_function(&main(0), &chars("app"), Origin::Test, Target::JavaScript).is_ok());
    assert!(matches!(
        assert_suitable_main_function(&main(2), &chars("app"), Origin::Src, Target::Erlang),
        Err(MainFunctionError::WrongArity { arity: 2, .. })
    ));
}

fn first_error(src: &str, deps: Vec<(&str, &str, &str)>) -> String {
    let text = module_error(src, deps).expect("should fail to check");
    text.lines().next().unwrap_or("").to_string()
}

#[test]
fn each_kind_of_error_has_an_input_that_gives_it() {
    assert_eq!(first_error("import wibble", vec![]), "error: Unknown module: wibble");
    assert_eq!(
        first_error(
            "import wibble\npub fn main() { wibble.b() }",
            vec![("thepackage", "wibble", "pub fn a() { 1 }")]
        ),
        "error: Unknown module value: b"
    );
    assert_eq!(
        first_error("pub type R { R(a: Int) }\npub fn main(r: R) { r.b }", vec![]),
        "error: Unknown record field: b"
    );
    assert_eq!(
        first_error("pub fn f(a) { a }\npub fn main() { f(1, 2) }", vec![]),
        "error: Incorrect arity: expected 1 arguments, got 2"
    );
    assert_eq!(
        first_error("pub fn main(x: List(Int, Int)) { x }", vec![]),
        "error: Incorrect type arity for List: expected 1, got 2"
    );
    assert_eq!(first_error("pub fn main(x: Int) { x.0 }", vec![]), "error: Not a tuple");
    assert_eq!(first_error("pub fn main() { 1(2) }", vec![]), "error: Not a function");
    assert_eq!(
        first_error(
            "pub type R { A(a: Int) B(a: Int) }\npub fn main(r: R) { A(..r, a: 1) }",
            vec![]
        ),
        "error: Unsafe record update: the variant of the record is not known"
    );
    assert_eq!(first_error("pub fn main() { _ }", vec![]), "error: Unexpected `_`");
    assert_eq!(
        first_error("pub type Bad { Bad(labelled: Int, Float) }", vec![]),
        "error: Unlabelled field after a labelled field"
    );
    assert_eq!(
        first_error("pub fn main(x) { case x { 1 | y -> 1 } }", vec![]),
        "error: Alternative patterns bind different variables: y"
    );
    assert_eq!(
        first_error("@external(javascript, \"a\", \"b\")\npub fn f() -> Int", vec![]),
        "error: No implementation for this target: f"
    );
    assert_eq!(
        first_error("pub fn main() { let [a] = [1] a }", vec![]),
        "error: Inexhaustive pattern: use `let assert` for a pattern that may not match"
    );
}

#[test]
fn forms_fix_the_shape_of_their_type() {
    assert_eq!(inferred("-1"), "Int");
    assert_eq!(inferred("!True"), "Bool");
    assert_eq!(inferred("<<1>>"), "BitArray");
    assert_eq!(inferred("1 < 2"), "Bool");
    assert_eq!(inferred("1.0 +. 2.0"), "Float");
    assert_eq!(inferred("\"a\" <> \"b\""), "String");
    assert_eq!(inferred("1 % 2"), "Int");
    assert_eq!(inferred("[]"), "List(a)");
    assert_eq!(inferred("#(1, 2.0, \"\")"), "#(Int, Float, String)");
    assert_eq!(inferred("fn(a, b) { a }"), "fn(a, b) -> a");
}

#[test]
fn bindings_inside_a_block_do_not_leak() {
    assert_eq!(inferred("let x = 1\nlet y = { let x = \"a\" x }\nx"), "Int");
    assert_eq!(inferred("let x = 1\nlet f = fn(x) { x <> \"\" }\nx"), "Int");
    assert_eq!(inferred("let x = 1\nlet y = case 2.0 { x -> x }\nx"), "Int");
    assert_eq!(inferred("let x = 1\nlet x = \"a\"\nx"), "String");
}

fn checked(src: &str) -> String {
    let stmts = parse_source_statements(src).ok().expect("should parse");
    let (names, t) = check_statements(&stmts);
    let t = t.ok().expect("should check");
    print_type(&names, &t).into_iter().collect()
}

#[test]
fn checked_statements_have_the_inferred_type() {
    assert_eq!(checked("let x = 1\n#(x, [x], x + 1 == 2)"), "#(Int, List(Int), Bool)");
    assert_eq!(checked("let f = fn(a, b) { #(b, a) }\nf(1, \"\")"), "#(String, Int)");
    assert_eq!(checked("let xs = [1.0, ..[]]\nxs"), "List(Float)");
    assert_eq!(checked("let t = #(1, \"a\")\nt.1"), "String");
    assert_eq!(checked("let _ = 1\n{ 2 } * 3"), "Int");
    assert_eq!(checked("case 1 { 1 if True -> \"a\" _ -> \"b\" }"), "String");
    assert_eq!(checked("<<1, 2.0:float>>"), "BitArray");
    assert_eq!(checked("fn() { todo as \"later\" }"), "fn() -> a");
    assert_eq!(checked("let #(a, b) = #(1, [\"x\"])\n#(b, a)"), "#(List(String), Int)");
    assert_eq!(checked("case [1] { [x, ..rest] -> [x, ..rest] _ -> [] }"), "List(Int)");
    assert_eq!(checked("case #(1, 2.0) { #(1, y) | #(_, y) -> y }"), "Float");
    assert_eq!(checked("let f = fn(a, b) { [a, b] }\n1 |> f(2)"), "List(Int)");
    assert_eq!(checked("let g = fn(a) { fn(b) { #(a, b) } }\n1.0 |> g(\"x\")"), "#(String, Float)");
    assert_eq!(checked("\"s\" |> fn(x) { x <> \"!\" }"), "String");
    assert_eq!(checked("#(Ok(1), Error(2.0), True, Nil)"), "#(Result(Int, a), Result(b, Float), Bool, Nil)");
    assert_eq!(checked("case Ok(1) { Ok(x) -> [x] Error(_) -> [] }"), "List(Int)");
    let stmts = parse_source_statements("1 + 1.0").ok().expect("should parse");
    assert!(check_statements(&stmts).1.is_err());
}

#[test]
fn a_name_defined_twice_is_rejected() {
    let error = module_error("pub fn f() { 1 }\npub fn f() { 2 }", vec![]).expect("should infer an error");
    assert!(error.contains("error: Duplicate definition: f"), "{}", error);
    let listed = infer_module("pub fn b() { 1 }\npub fn a() { 2.0 }\npub type T { T }", vec![])
        .ok()
        .expect("should infer");
    let names: Vec<&str> = listed.iter().map(|p| p.0.as_str()).collect();
    assert_eq!(names, vec!["T", "a", "b"]);
}
