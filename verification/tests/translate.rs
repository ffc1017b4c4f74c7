//! Happy-path translations: statements, blocks, comments, substitutions.

use forge::encode;

/// The fixed text that opens every generated program.
const PRE: &str = "fn main() {\nuse std::io::{self, Write};\nuse std::time::{SystemTime, UNIX_EPOCH};\n\nfn simple_rand(min: i32, max: i32) -> i32 {\n    use std::collections::hash_map::RandomState;\n    use std::hash::{BuildHasher, Hasher};\n    let nanos = SystemTime::now().duration_since(UNIX_EPOCH).unwrap().as_nanos();\n    let state = RandomState::new();\n    let mut hasher = state.build_hasher();\n    hasher.write_u128(nanos);\n    let hash = hasher.finish();\n    min + ((hash as i32).abs() % (max - min + 1))\n}\n\n";

fn expect_ok(source: &str, body: &str) {
    let got = encode(source).expect("translation should succeed");
    let want = format!("{}{}{}", PRE, body, "}\n");
    assert_eq!(got, want);
}

#[test]
fn empty_program_is_just_the_frame() {
    expect_ok("", "");
}

#[test]
fn blank_lines_emit_nothing() {
    expect_ok("\n   \n\t\n", "");
}

#[test]
fn print_literal_passes_through_verbatim() {
    expect_ok("print(\"hello\")--", "    println!(\"hello\");\n");
}

#[test]
fn print_identifier_is_interpolated() {
    expect_ok("print(x)--", "    println!(\"{}\", x);\n");
}

#[test]
fn print_line_is_trimmed_first() {
    expect_ok("   print(\"hi\")--   ", "    println!(\"hi\");\n");
}

#[test]
fn declaration_becomes_mutable_binding() {
    expect_ok("var total = 0--", "    let mut total = 0;\n");
}

#[test]
fn assignment_and_bare_statement_keep_their_text() {
    expect_ok(
        "total = total + 1--\nfoo(bar)--",
        "    total = total + 1;\n    foo(bar);\n",
    );
}

#[test]
fn empty_statement_is_a_bare_semicolon() {
    expect_ok("--", "    ;\n");
}

#[test]
fn input_declaration_prompts_flushes_reads_and_trims() {
    expect_ok(
        "var n = input(\"Enter a number: \")--",
        "    print!(\"Enter a number: \"); io::stdout().flush().unwrap(); let mut n = String::new(); io::stdin().read_line(&mut n).unwrap(); n = n.trim().to_string();\n",
    );
}

#[test]
fn input_prompt_pieces_come_in_order() {
    let out = encode("var n = input(\"Enter a number: \")--").unwrap();
    let body = &out[PRE.len()..];
    assert!(!body.contains("\"\"Enter"));
    let prompt = body.find("print!(\"Enter a number: \")").unwrap();
    let flush = body.find("io::stdout().flush()").unwrap();
    let bind = body.find("let mut n = String::new()").unwrap();
    let read = body.find("io::stdin().read_line(&mut n)").unwrap();
    let trim = body.find("n = n.trim().to_string()").unwrap();
    assert!(prompt < flush && flush < bind && bind < read && read < trim);
}

#[test]
fn input_prompt_single_quotes_are_stripped() {
    let out = encode("var name = input('Who? ')--").unwrap();
    assert!(out.contains("print!(\"Who? \");"));
}

#[test]
fn input_prompt_embedded_quotes_are_escaped() {
    let out = encode("var s = input(\"a \"b\" c\")--").unwrap();
    assert!(out.contains("print!(\"a \\\"b\\\" c\");"));
}

#[test]
fn input_prompt_unquoted_expression_is_kept() {
    let out = encode("var s = input(greeting)--").unwrap();
    assert!(out.contains("print!(\"greeting\");"));
}

#[test]
fn if_else_bodies_share_their_indent() {
    let out = encode("if a > b {\n  print(a)--\n} else {\n  print(b)--\n}").unwrap();
    let body = &out[PRE.len()..];
    assert_eq!(
        body,
        "    if a > b {\n        println!(\"{}\", a);\n    } else {\n        println!(\"{}\", b);\n    }\n}\n"
    );
}

#[test]
fn while_loop_nests_its_body() {
    expect_ok(
        "while i < 10 {\ni = i + 1--\n}",
        "    while i < 10 {\n        i = i + 1;\n    }\n",
    );
}

#[test]
fn nested_blocks_restore_the_outer_indent() {
    expect_ok(
        "if a {\nwhile b {\nx = 1--\n}\ny = 2--\n}\nz = 3--",
        "    if a {\n        while b {\n            x = 1;\n        }\n        y = 2;\n    }\n    z = 3;\n",
    );
}

#[test]
fn line_comments_emit_nothing() {
    expect_ok("// a remark\n# another\nprint(\"x\")--", "    println!(\"x\");\n");
}

#[test]
fn three_line_block_comment_emits_nothing_and_keeps_indent() {
    expect_ok(
        "if a {\n/* one\n   two\n   three */\nx = 1--\n}",
        "    if a {\n        x = 1;\n    }\n",
    );
}

#[test]
fn one_line_block_comment_is_consumed() {
    expect_ok("/* all on one line */\nprint(\"y\")--", "    println!(\"y\");\n");
}

#[test]
fn random_calls_are_renamed_at_every_site() {
    let out = encode("var x = rand(1, 10)--\ny = rand(2,3) + rand(4,5)--").unwrap();
    let body = &out[PRE.len()..];
    assert_eq!(
        body,
        "    let mut x = simple_rand(1, 10);\n    y = simple_rand(2,3) + simple_rand(4,5);\n}\n"
    );
}

#[test]
fn random_helper_is_defined_exactly_once() {
    let out = encode("var x = rand(1, 2)--\nvar y = rand(3, 4)--\nz = rand(5, 6)--").unwrap();
    assert_eq!(out.matches("fn simple_rand(").count(), 1);
}

#[test]
fn random_call_inside_print_is_left_alone() {
    expect_ok("print(rand(1,2))--", "    println!(\"{}\", rand(1,2));\n");
}

#[test]
fn statements_without_random_calls_are_untouched() {
    expect_ok("brand = operand--", "    brand = operand;\n");
}

#[test]
fn non_ascii_text_passes_through() {
    expect_ok("print(\"héllo wörld\")--", "    println!(\"héllo wörld\");\n");
}

#[test]
fn trailing_newline_changes_nothing() {
    assert_eq!(encode("x = 1--\n"), encode("x = 1--"));
}

#[test]
fn prompt_keeps_its_inner_parentheses() {
    let out = encode("var x = input(\"Q(a)\")--").unwrap();
    assert!(out.contains("print!(\"Q(a)\");"));
}
