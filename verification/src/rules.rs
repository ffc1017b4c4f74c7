//! The translation rules: how one trimmed line of the source dialect is
//! classified and what target text it emits, as a specification over
//! `Seq<char>`.
//!
//! Dispatch is strictly ordered; the first matching rule wins.  The scan
//! state is one nesting counter plus one block-comment flag.  Lines that
//! match no rule are rejected (the strict policy): nothing is dropped or
//! passed through silently.

use vstd::prelude::*;

use crate::text::contains_pat;
use crate::text::first_match_idx;
use crate::text::has_prefix;
use crate::text::has_suffix;
use crate::text::spec_replace;
use crate::text::spec_trim;
use crate::text::spec_trim_end_paren;

verus! {

/// The state carried from line to line: the block nesting depth and
/// whether the scan stands inside a block comment.
pub struct ScanState {
    pub depth: nat,
    pub in_comment: bool,
}

/// The scan state at the start of a program: no nesting, no open comment.
pub open spec fn init_state() -> ScanState {
    ScanState { depth: 0, in_comment: false }
}

/// The ways a line can be rejected.
pub enum ErrKind {
    /// A non-empty, non-comment line matched no rule.
    Unrecognized,
    /// A block closer (or an `else` joint) with no open block.
    Unbalanced,
    /// A declaration that invokes the input call without the expected
    /// `name = input(prompt)` split marker.
    MalformedPrompt,
}

/// What one line contributes: emitted text and a new state, or a rejection.
pub enum LineAct {
    Emit { text: Seq<char>, next: ScanState },
    Fail { kind: ErrKind },
}

/// The fixed text that opens every generated program: the entry point,
/// the imports it needs, and the single definition of the pseudo-random
/// helper, emitted once regardless of how many call sites exist.
pub open spec fn preamble() -> Seq<char> {
    "fn main() {\nuse std::io::{self, Write};\nuse std::time::{SystemTime, UNIX_EPOCH};\n\nfn simple_rand(min: i32, max: i32) -> i32 {\n    use std::collections::hash_map::RandomState;\n    use std::hash::{BuildHasher, Hasher};\n    let nanos = SystemTime::now().duration_since(UNIX_EPOCH).unwrap().as_nanos();\n    let state = RandomState::new();\n    let mut hasher = state.build_hasher();\n    hasher.write_u128(nanos);\n    let hash = hasher.finish();\n    min + ((hash as i32).abs() % (max - min + 1))\n}\n\n"@
}

/// The fixed text that closes every generated program.
pub open spec fn postamble() -> Seq<char> {
    "}\n"@
}

/// One indent unit repeated `n` times.
pub open spec fn indent_seq(n: nat) -> Seq<char>
    decreases n,
{
    if n == 0 {
        Seq::<char>::empty()
    } else {
        indent_seq((n - 1) as nat) + "    "@
    }
}

/// Every occurrence of the source dialect's random-call token renamed to
/// the generated helper, arguments untouched.
pub open spec fn replace_rand(s: Seq<char>) -> Seq<char> {
    spec_replace(s, "rand("@, "simple_rand("@)
}

/// An output statement: a print-call prefix and the statement terminator.
pub open spec fn is_print_stmt(l: Seq<char>) -> bool {
    has_prefix(l, "print("@) && has_suffix(l, ")--"@) && l.len() >= "print("@.len()
        + ")--"@.len()
}

/// The argument between the print-call prefix and the terminator.
pub open spec fn print_inner(l: Seq<char>) -> Seq<char> {
    l.subrange("print("@.len() as int, l.len() - ")--"@.len())
}

/// A declaration: the declaration keyword and the statement terminator.
pub open spec fn is_var_decl(l: Seq<char>) -> bool {
    has_prefix(l, "var "@) && has_suffix(l, "--"@) && l.len() >= "var "@.len() + "--"@.len()
}

/// The declaration with its keyword and terminator stripped.
pub open spec fn decl_body(l: Seq<char>) -> Seq<char> {
    l.subrange("var "@.len() as int, l.len() - "--"@.len())
}

/// A conditional opener: the `if` keyword and the block-opening marker.
pub open spec fn is_if_open(l: Seq<char>) -> bool {
    has_prefix(l, "if "@) && has_suffix(l, "{"@) && l.len() >= "if "@.len() + "{"@.len()
}

/// The condition between the `if` keyword and the block opener.
pub open spec fn if_cond(l: Seq<char>) -> Seq<char> {
    spec_trim(l.subrange("if "@.len() as int, l.len() - "{"@.len()))
}

/// A loop opener: the `while` keyword and the block-opening marker.
pub open spec fn is_while_open(l: Seq<char>) -> bool {
    has_prefix(l, "while "@) && has_suffix(l, "{"@) && l.len() >= "while "@.len() + "{"@.len()
}

/// The condition between the `while` keyword and the block opener.
pub open spec fn while_cond(l: Seq<char>) -> Seq<char> {
    spec_trim(l.subrange("while "@.len() as int, l.len() - "{"@.len()))
}

/// Any remaining statement completed by the terminator: a plain
/// assignment or a bare statement.
pub open spec fn is_terminated_stmt(l: Seq<char>) -> bool {
    has_suffix(l, "--"@)
}

/// The statement with its terminator stripped.
pub open spec fn stmt_body(l: Seq<char>) -> Seq<char> {
    l.take(l.len() - "--"@.len())
}

/// An output statement's emission: a literal string argument passes
/// through verbatim as the format string; anything else is wrapped as an
/// interpolated single-value print.
pub open spec fn emit_print(l: Seq<char>, depth: nat) -> Seq<char> {
    let inner = print_inner(l);
    if inner.len() > 0 && inner[0] == '"' {
        indent_seq(depth + 1) + "println!("@ + inner + ");\n"@
    } else {
        indent_seq(depth + 1) + "println!(\"{}\", "@ + inner + ");\n"@
    }
}

/// A declaration's emission: a mutable binding, with the random call
/// renamed where it occurs.
pub open spec fn emit_decl(stmt: Seq<char>, depth: nat) -> Seq<char> {
    indent_seq(depth + 1) + "let mut "@ + replace_rand(stmt) + ";\n"@
}

/// One layer of surrounding quotes removed from a literal prompt, so that
/// the quote characters are not echoed to the terminal.
pub open spec fn strip_quotes(s: Seq<char>) -> Seq<char> {
    if s.len() >= 2 && ((s[0] == '"' && s[s.len() - 1] == '"') || (s[0] == '\'' && s[s.len() - 1]
        == '\'')) {
        s.subrange(1, s.len() - 1)
    } else {
        s
    }
}

/// Embedded double quotes escaped so the prompt stays one string literal.
pub open spec fn escape_quotes(s: Seq<char>) -> Seq<char> {
    spec_replace(s, "\""@, "\\\""@)
}

/// The prompt text taken from what follows the input-call marker: the
/// trailing parenthesis dropped, the expression trimmed, one layer of
/// quotes stripped, embedded quotes escaped.
pub open spec fn input_prompt(after: Seq<char>) -> Seq<char> {
    escape_quotes(strip_quotes(spec_trim(spec_trim_end_paren(after))))
}

/// A prompted-input declaration's emission, one uninterruptible generated
/// sequence: print the prompt, flush, bind an empty mutable string, read a
/// line into it, trim it in place.
pub open spec fn emit_input(name: Seq<char>, prompt: Seq<char>, depth: nat) -> Seq<char> {
    indent_seq(depth + 1) + "print!(\""@ + prompt
        + "\"); io::stdout().flush().unwrap(); let mut "@ + name
        + " = String::new(); io::stdin().read_line(&mut "@ + name + ").unwrap(); "@ + name + " = "@
        + name + ".trim().to_string();\n"@
}

/// A block opener's emission: the keyword, the extracted condition, the
/// brace; the body that follows is one level deeper.
pub open spec fn emit_open(kw: Seq<char>, cond: Seq<char>, depth: nat) -> Seq<char> {
    indent_seq(depth + 1) + kw + cond + " {\n"@
}

/// A plain assignment's or bare statement's emission, with the random
/// call renamed where it occurs.
pub open spec fn emit_stmt(stmt: Seq<char>, depth: nat) -> Seq<char> {
    indent_seq(depth + 1) + replace_rand(stmt) + ";\n"@
}

/// What one raw line contributes to the translation, given the state the
/// scan is in.  The line is trimmed first; the rules then apply in a fixed
/// order, the first match winning.
pub open spec fn spec_step(st: ScanState, raw: Seq<char>) -> LineAct {
    let l = spec_trim(raw);
    if l.len() == 0 {
        LineAct::Emit { text: Seq::<char>::empty(), next: st }
    } else if st.in_comment {
        if contains_pat(l, "*/"@) {
            LineAct::Emit { text: Seq::<char>::empty(), next: ScanState { in_comment: false, ..st } }
        } else {
            LineAct::Emit { text: Seq::<char>::empty(), next: st }
        }
    } else if has_prefix(l, "/*"@) {
        if contains_pat(l, "*/"@) {
            LineAct::Emit { text: Seq::<char>::empty(), next: st }
        } else {
            LineAct::Emit { text: Seq::<char>::empty(), next: ScanState { in_comment: true, ..st } }
        }
    } else if has_prefix(l, "//"@) || has_prefix(l, "#"@) {
        LineAct::Emit { text: Seq::<char>::empty(), next: st }
    } else if is_print_stmt(l) {
        LineAct::Emit { text: emit_print(l, st.depth), next: st }
    } else if is_var_decl(l) {
        let stmt = decl_body(l);
        if contains_pat(stmt, "= input("@) {
            let i = first_match_idx(stmt, "= input("@);
            LineAct::Emit {
                text: emit_input(
                    spec_trim(stmt.take(i)),
                    input_prompt(stmt.skip(i + "= input("@.len())),
                    st.depth,
                ),
                next: st,
            }
        } else if contains_pat(stmt, "input("@) {
            LineAct::Fail { kind: ErrKind::MalformedPrompt }
        } else {
            LineAct::Emit { text: emit_decl(stmt, st.depth), next: st }
        }
    } else if is_if_open(l) {
        LineAct::Emit {
            text: emit_open("if "@, if_cond(l), st.depth),
            next: ScanState { depth: st.depth + 1, ..st },
        }
    } else if l == "} else {"@ {
        if st.depth == 0 {
            LineAct::Fail { kind: ErrKind::Unbalanced }
        } else {
            LineAct::Emit { text: indent_seq(st.depth) + "} else {\n"@, next: st }
        }
    } else if l == "else {"@ {
        if st.depth == 0 {
            LineAct::Fail { kind: ErrKind::Unbalanced }
        } else {
            LineAct::Emit { text: indent_seq(st.depth) + "else {\n"@, next: st }
        }
    } else if is_while_open(l) {
        LineAct::Emit {
            text: emit_open("while "@, while_cond(l), st.depth),
            next: ScanState { depth: st.depth + 1, ..st },
        }
    } else if l == "}"@ {
        if st.depth == 0 {
            LineAct::Fail { kind: ErrKind::Unbalanced }
        } else {
            LineAct::Emit {
                text: indent_seq(st.depth) + "}\n"@,
                next: ScanState { depth: (st.depth - 1) as nat, ..st },
            }
        }
    } else if is_terminated_stmt(l) {
        LineAct::Emit { text: emit_stmt(stmt_body(l), st.depth), next: st }
    } else {
        LineAct::Fail { kind: ErrKind::Unrecognized }
    }
}

} // verus!
