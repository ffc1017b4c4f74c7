//! The transpiler itself: a single-pass, stateful line scanner that turns
//! the text of a source-dialect program into the text of an equivalent
//! host-language program, proved equal to the line-by-line specification
//! built from [`crate::rules::spec_step`].

use vstd::prelude::*;

use crate::rules::emit_decl;
use crate::rules::emit_input;
use crate::rules::emit_open;
use crate::rules::emit_print;
use crate::rules::emit_stmt;
use crate::rules::indent_seq;
use crate::rules::init_state;
use crate::rules::input_prompt;
use crate::rules::is_if_open;
use crate::rules::is_print_stmt;
use crate::rules::is_var_decl;
use crate::rules::is_while_open;
use crate::rules::postamble;
use crate::rules::preamble;
use crate::rules::print_inner;
use crate::rules::decl_body;
use crate::rules::strip_quotes;
use crate::rules::ErrKind;
use crate::rules::LineAct;
use crate::rules::ScanState;
use crate::rules::spec_step;
use crate::text::append_replace_all;
use crate::text::contains_str;
use crate::text::find_first;
use crate::text::has_prefix_str;
use crate::text::has_suffix_str;
use crate::text::lemma_first_match_unique;
use crate::text::spec_split_lines;
use crate::text::spec_trim;
use crate::text::split_line_bounds;
use crate::text::str_eq;
use crate::text::trim_end_parens;
use crate::text::trim_str;

verus! {

/// The outcome of scanning a suffix of the line sequence: the emitted
/// text with the final state, or the 1-based number of the rejected line.
pub enum ScanOut {
    Done { text: Seq<char>, state: ScanState },
    Stopped { line: nat, kind: ErrKind },
}

/// Folds [`spec_step`] over `lines[i..]`, concatenating the emitted
/// fragments; a rejected line stops the scan and names itself.
pub open spec fn scan_from(lines: Seq<Seq<char>>, i: int, st: ScanState) -> ScanOut
    decreases lines.len() - i,
{
    if i < 0 || i >= lines.len() {
        ScanOut::Done { text: Seq::<char>::empty(), state: st }
    } else {
        match spec_step(st, lines[i]) {
            LineAct::Emit { text, next } => match scan_from(lines, i + 1, next) {
                ScanOut::Done { text: rest, state } => ScanOut::Done { text: text + rest, state },
                stopped => stopped,
            },
            LineAct::Fail { kind } => ScanOut::Stopped { line: (i + 1) as nat, kind },
        }
    }
}

/// The whole translation of a source text: the fixed preamble, then the
/// scan of its lines from the initial state, then the closing text.
pub open spec fn spec_encode(src: Seq<char>) -> ScanOut {
    match scan_from(spec_split_lines(src), 0, init_state()) {
        ScanOut::Done { text, state } => ScanOut::Done {
            text: preamble() + text + postamble(),
            state,
        },
        stopped => stopped,
    }
}

/// A rejected input, naming the 1-based line that stopped the scan.
#[derive(Debug, PartialEq, Eq, Clone)]
pub enum TranspileError {
    /// A non-empty, non-comment line that matches no rule; carries the
    /// offending text, trimmed.
    UnrecognizedLine { line: usize, text: String },
    /// A block closer (or an `else` joint) while no block is open.
    UnbalancedBlock { line: usize },
    /// A declaration invoking the input call without the expected
    /// `name = input(prompt)` split marker.
    MalformedInputPrompt { line: usize },
}

/// The executable error agrees with the specification's stopping point.
pub open spec fn err_matches(
    e: TranspileError,
    line: nat,
    kind: ErrKind,
    lines: Seq<Seq<char>>,
) -> bool {
    match kind {
        ErrKind::Unrecognized => e matches TranspileError::UnrecognizedLine { line: el, text }
            && el as nat == line && 1 <= line <= lines.len() && text@ == spec_trim(
            lines[line - 1],
        ),
        ErrKind::Unbalanced => e matches TranspileError::UnbalancedBlock { line: el } && el as nat
            == line,
        ErrKind::MalformedPrompt => e matches TranspileError::MalformedInputPrompt { line: el }
            && el as nat == line,
    }
}

/// Appends `units` repetitions of the indent unit.
fn push_indent(out: &mut String, units: usize)
    ensures
        final(out)@ == old(out)@ + indent_seq(units as nat),
{
    proof {
        assert(old(out)@ + indent_seq(0) =~= old(out)@);
    }
    let mut j: usize = 0;
    while j < units
        invariant
            j <= units,
            out@ == old(out)@ + indent_seq(j as nat),
        decreases units - j,
    {
        out.append("    ");
        proof {
            assert((old(out)@ + indent_seq(j as nat)) + "    "@ =~= old(out)@ + indent_seq(
                (j + 1) as nat,
            ));
        }
        j = j + 1;
    }
}

/// Appends the translation of an output statement.
fn emit_print_exec(out: &mut String, l: &str, depth: usize)
    requires
        is_print_stmt(l@),
        depth < usize::MAX,
    ensures
        final(out)@ == old(out)@ + emit_print(l@, depth as nat),
{
    push_indent(out, depth + 1);
    let n = l.unicode_len();
    let a = "print(".unicode_len();
    let b = ")--".unicode_len();
    let inner = l.substring_char(a, n - b);
    proof {
        assert(inner@ == print_inner(l@));
    }
    if inner.unicode_len() > 0 && inner.get_char(0) == '"' {
        out.append("println!(");
        out.append(inner);
        out.append(");\n");
    } else {
        out.append("println!(\"{}\", ");
        out.append(inner);
        out.append(");\n");
    }
    proof {
        assert(out@ =~= old(out)@ + emit_print(l@, depth as nat));
    }
}

/// Appends the translation of a declaration without an input call.
fn emit_decl_exec(out: &mut String, stmt: &str, depth: usize)
    requires
        depth < usize::MAX,
    ensures
        final(out)@ == old(out)@ + emit_decl(stmt@, depth as nat),
{
    proof {
        reveal_strlit("rand(");
    }
    push_indent(out, depth + 1);
    out.append("let mut ");
    append_replace_all(out, stmt, "rand(", "simple_rand(");
    out.append(";\n");
    proof {
        assert(out@ =~= old(out)@ + emit_decl(stmt@, depth as nat));
    }
}

/// Appends the translation of a plain assignment or bare statement.
fn emit_stmt_exec(out: &mut String, stmt: &str, depth: usize)
    requires
        depth < usize::MAX,
    ensures
        final(out)@ == old(out)@ + emit_stmt(stmt@, depth as nat),
{
    proof {
        reveal_strlit("rand(");
    }
    push_indent(out, depth + 1);
    append_replace_all(out, stmt, "rand(", "simple_rand(");
    out.append(";\n");
    proof {
        assert(out@ =~= old(out)@ + emit_stmt(stmt@, depth as nat));
    }
}

/// Appends a block opener: keyword, condition, brace.
fn emit_open_exec(out: &mut String, kw: &str, cond: &str, depth: usize)
    requires
        depth < usize::MAX,
    ensures
        final(out)@ == old(out)@ + emit_open(kw@, cond@, depth as nat),
{
    push_indent(out, depth + 1);
    out.append(kw);
    out.append(cond);
    out.append(" {\n");
    proof {
        assert(out@ =~= old(out)@ + emit_open(kw@, cond@, depth as nat));
    }
}

/// Appends the generated prompt-read-trim sequence of a prompted-input
/// declaration.
fn emit_input_exec(out: &mut String, name: &str, after: &str, depth: usize)
    requires
        depth < usize::MAX,
    ensures
        final(out)@ == old(out)@ + emit_input(name@, input_prompt(after@), depth as nat),
{
    proof {
        reveal_strlit("\"");
    }
    let p1 = trim_end_parens(after);
    let p2 = trim_str(p1);
    let p2n = p2.unicode_len();
    let stripped: &str = if p2n >= 2 && ((p2.get_char(0) == '"' && p2.get_char(p2n - 1) == '"') || (
    p2.get_char(0) == '\'' && p2.get_char(p2n - 1) == '\'')) {
        p2.substring_char(1, p2n - 1)
    } else {
        p2
    };
    proof {
        assert(stripped@ == strip_quotes(p2@));
    }
    push_indent(out, depth + 1);
    out.append("print!(\"");
    append_replace_all(out, stripped, "\"", "\\\"");
    out.append("\"); io::stdout().flush().unwrap(); let mut ");
    out.append(name);
    out.append(" = String::new(); io::stdin().read_line(&mut ");
    out.append(name);
    out.append(").unwrap(); ");
    out.append(name);
    out.append(" = ");
    out.append(name);
    out.append(".trim().to_string();\n");
    proof {
        assert(out@ =~= old(out)@ + emit_input(name@, input_prompt(after@), depth as nat));
    }
}

/// Whether the trimmed line is an output statement.
fn is_print_stmt_exec(l: &str) -> (r: bool)
    ensures
        r == is_print_stmt(l@),
{
    if has_prefix_str(l, "print(") && has_suffix_str(l, ")--") {
        let n = l.unicode_len();
        let a = "print(".unicode_len();
        let b = ")--".unicode_len();
        n >= a && n - a >= b
    } else {
        false
    }
}

/// Whether the trimmed line is a declaration.
fn is_var_decl_exec(l: &str) -> (r: bool)
    ensures
        r == is_var_decl(l@),
{
    if has_prefix_str(l, "var ") && has_suffix_str(l, "--") {
        let n = l.unicode_len();
        let a = "var ".unicode_len();
        let b = "--".unicode_len();
        n >= a && n - a >= b
    } else {
        false
    }
}

/// Whether the trimmed line opens a conditional block.
fn is_if_open_exec(l: &str) -> (r: bool)
    ensures
        r == is_if_open(l@),
{
    if has_prefix_str(l, "if ") && has_suffix_str(l, "{") {
        let n = l.unicode_len();
        let a = "if ".unicode_len();
        let b = "{".unicode_len();
        n >= a && n - a >= b
    } else {
        false
    }
}

/// Whether the trimmed line opens a loop block.
fn is_while_open_exec(l: &str) -> (r: bool)
    ensures
        r == is_while_open(l@),
{
    if has_prefix_str(l, "while ") && has_suffix_str(l, "{") {
        let n = l.unicode_len();
        let a = "while ".unicode_len();
        let b = "{".unicode_len();
        n >= a && n - a >= b
    } else {
        false
    }
}

/// Applies one line to the scan: appends the line's emission to `out` and
/// updates the state, or reports why the line is rejected, exactly as
/// [`spec_step`] says.
fn encode_line(line: &str, depth: &mut usize, in_comment: &mut bool, out: &mut String) -> (r:
    Option<ErrKind>)
    requires
        *old(depth) < usize::MAX,
    ensures
        ({
            let st0 = ScanState { depth: *old(depth) as nat, in_comment: *old(in_comment) };
            match spec_step(st0, line@) {
                LineAct::Emit { text, next } => {
                    &&& r is None
                    &&& final(out)@ == old(out)@ + text
                    &&& *final(depth) as nat == next.depth
                    &&& *final(in_comment) == next.in_comment
                },
                LineAct::Fail { kind } => {
                    &&& r == Some(kind)
                    &&& final(out)@ == old(out)@
                    &&& *final(depth) == *old(depth)
                    &&& *final(in_comment) == *old(in_comment)
                },
            }
        }),
{
    let l = trim_str(line);
    let ln = l.unicode_len();
    if ln == 0 {
        proof {
            assert(out@ =~= old(out)@ + Seq::<char>::empty());
        }
        return None;
    }
    if *in_comment {
        if contains_str(l, "*/") {
            *in_comment = false;
        }
        proof {
            assert(out@ =~= old(out)@ + Seq::<char>::empty());
        }
        return None;
    }
    if has_prefix_str(l, "/*") {
        if !contains_str(l, "*/") {
            *in_comment = true;
        }
        proof {
            assert(out@ =~= old(out)@ + Seq::<char>::empty());
        }
        return None;
    }
    if has_prefix_str(l, "//") || has_prefix_str(l, "#") {
        proof {
            assert(out@ =~= old(out)@ + Seq::<char>::empty());
        }
        return None;
    }
    if is_print_stmt_exec(l) {
        emit_print_exec(out, l, *depth);
        return None;
    }
    if is_var_decl_exec(l) {
        let a = "var ".unicode_len();
        let b = "--".unicode_len();
        let stmt = l.substring_char(a, ln - b);
        proof {
            assert(stmt@ == decl_body(l@));
        }
        match find_first(stmt, "= input(") {
            Some(i) => {
                proof {
                    lemma_first_match_unique(stmt@, "= input("@, i as int);
                    assert(crate::text::match_at(stmt@, "= input("@, i as int));
                }
                let name = trim_str(stmt.substring_char(0, i));
                let ml = "= input(".unicode_len();
                let sn = stmt.unicode_len();
                let after = stmt.substring_char(i + ml, sn);
                proof {
                    assert(stmt@.subrange(0, i as int) =~= stmt@.take(i as int));
                    assert(after@ =~= stmt@.skip(i + ml));
                }
                emit_input_exec(out, name, after, *depth);
                return None;
            },
            None => {
                if contains_str(stmt, "input(") {
                    return Some(ErrKind::MalformedPrompt);
                }
                emit_decl_exec(out, stmt, *depth);
                return None;
            },
        }
    }
    if is_if_open_exec(l) {
        let a = "if ".unicode_len();
        let b = "{".unicode_len();
        let cond = trim_str(l.substring_char(a, ln - b));
        emit_open_exec(out, "if ", cond, *depth);
        *depth = *depth + 1;
        return None;
    }
    if str_eq(l, "} else {") {
        if *depth == 0 {
            return Some(ErrKind::Unbalanced);
        }
        push_indent(out, *depth);
        out.append("} else {\n");
        proof {
            assert(out@ =~= old(out)@ + (indent_seq(*old(depth) as nat) + "} else {\n"@));
        }
        return None;
    }
    if str_eq(l, "else {") {
        if *depth == 0 {
            return Some(ErrKind::Unbalanced);
        }
        push_indent(out, *depth);
        out.append("else {\n");
        proof {
            assert(out@ =~= old(out)@ + (indent_seq(*old(depth) as nat) + "else {\n"@));
        }
        return None;
    }
    if is_while_open_exec(l) {
        let a = "while ".unicode_len();
        let b = "{".unicode_len();
        let cond = trim_str(l.substring_char(a, ln - b));
        emit_open_exec(out, "while ", cond, *depth);
        *depth = *depth + 1;
        return None;
    }
    if str_eq(l, "}") {
        if *depth == 0 {
            return Some(ErrKind::Unbalanced);
        }
        push_indent(out, *depth);
        out.append("}\n");
        *depth = *depth - 1;
        proof {
            assert(out@ =~= old(out)@ + (indent_seq(*old(depth) as nat) + "}\n"@));
        }
        return None;
    }
    if has_suffix_str(l, "--") {
        let b = "--".unicode_len();
        let stmt = l.substring_char(0, ln - b);
        proof {
            assert(stmt@ =~= crate::rules::stmt_body(l@));
        }
        emit_stmt_exec(out, stmt, *depth);
        return None;
    }
    Some(ErrKind::Unrecognized)
}

/// Translates one source-dialect program into host-language program text.
///
/// On success the result is exactly what [`spec_encode`] assembles: the
/// fixed preamble, each line's emission in order, and the closing brace.
/// On rejection the error names the 1-based offending line, and nothing
/// is returned past that point.
pub fn encode(source: &str) -> (r: Result<String, TranspileError>)
    ensures
        match r {
            Ok(out) => spec_encode(source@) matches ScanOut::Done { text, .. } && out@ == text,
            Err(e) => spec_encode(source@) matches ScanOut::Stopped { line, kind } && err_matches(
                e,
                line,
                kind,
                spec_split_lines(source@),
            ),
        },
{
    let bounds = split_line_bounds(source);
    let ghost ls = spec_split_lines(source@);
    let mut out = String::new();
    out.append(
        "fn main() {\nuse std::io::{self, Write};\nuse std::time::{SystemTime, UNIX_EPOCH};\n\nfn simple_rand(min: i32, max: i32) -> i32 {\n    use std::collections::hash_map::RandomState;\n    use std::hash::{BuildHasher, Hasher};\n    let nanos = SystemTime::now().duration_since(UNIX_EPOCH).unwrap().as_nanos();\n    let state = RandomState::new();\n    let mut hasher = state.build_hasher();\n    hasher.write_u128(nanos);\n    let hash = hasher.finish();\n    min + ((hash as i32).abs() % (max - min + 1))\n}\n\n",
    );
    proof {
        assert(out@ =~= preamble());
    }
    let mut depth: usize = 0;
    let mut in_comment = false;
    let ghost mut body = Seq::<char>::empty();
    let mut k: usize = 0;
    let nlines = bounds.len();
    proof {
        assert(out@ =~= preamble() + body);
        assert(ScanState { depth: 0 as nat, in_comment: false } == init_state());
        match scan_from(ls, 0, init_state()) {
            ScanOut::Done { text, state } => {
                assert(Seq::<char>::empty() + text =~= text);
            },
            ScanOut::Stopped { .. } => {},
        }
    }
    while k < nlines
        invariant
            k <= nlines,
            nlines == bounds@.len(),
            bounds@.len() == ls.len(),
            ls == spec_split_lines(source@),
            forall|j: int|
                0 <= j < bounds@.len() ==> (#[trigger] bounds@[j]).0 <= bounds@[j].1
                    <= source@.len() && source@.subrange(
                    bounds@[j].0 as int,
                    bounds@[j].1 as int,
                ) == ls[j],
            depth <= k,
            out@ == preamble() + body,
            ({
                let cur = ScanState { depth: depth as nat, in_comment };
                match scan_from(ls, k as int, cur) {
                    ScanOut::Done { text, state } => scan_from(ls, 0, init_state())
                        == (ScanOut::Done { text: body + text, state }),
                    ScanOut::Stopped { line, kind } => scan_from(ls, 0, init_state())
                        == (ScanOut::Stopped { line, kind }),
                }
            }),
        decreases nlines - k,
    {
        let pair = bounds[k];
        let line = source.substring_char(pair.0, pair.1);
        proof {
            assert(line@ == ls[k as int]);
        }
        let ghost st_before = ScanState { depth: depth as nat, in_comment };
        let res = encode_line(line, &mut depth, &mut in_comment, &mut out);
        match res {
            None => {
                proof {
                    match spec_step(st_before, ls[k as int]) {
                        LineAct::Emit { text, next } => {
                            assert(next.depth <= st_before.depth + 1);
                            let prev_body = body;
                            body = body + text;
                            match scan_from(ls, k + 1, next) {
                                ScanOut::Done { text: rest, state } => {
                                    assert(scan_from(ls, k as int, st_before) == (ScanOut::Done {
                                        text: text + rest,
                                        state,
                                    }));
                                    assert(prev_body + (text + rest) =~= body + rest);
                                },
                                ScanOut::Stopped { .. } => {},
                            }
                        },
                        LineAct::Fail { .. } => {
                            assert(false);
                        },
                    }
                }
                k = k + 1;
            },
            Some(kind) => {
                proof {
                    match spec_step(st_before, ls[k as int]) {
                        LineAct::Emit { .. } => {
                            assert(false);
                        },
                        LineAct::Fail { .. } => {},
                    }
                }
                let lineno = k + 1;
                let tl = trim_str(line);
                let e = match kind {
                    ErrKind::Unrecognized => TranspileError::UnrecognizedLine {
                        line: lineno,
                        text: String::from_str(tl),
                    },
                    ErrKind::Unbalanced => TranspileError::UnbalancedBlock { line: lineno },
                    ErrKind::MalformedPrompt => TranspileError::MalformedInputPrompt {
                        line: lineno,
                    },
                };
                return Err(e);
            },
        }
    }
    proof {
        let cur = ScanState { depth: depth as nat, in_comment };
        assert(scan_from(ls, k as int, cur) == (ScanOut::Done {
            text: Seq::<char>::empty(),
            state: cur,
        }));
        match scan_from(ls, 0, init_state()) {
            ScanOut::Done { text, state } => {
                assert(body + Seq::<char>::empty() =~= body);
                assert(text == body);
            },
            ScanOut::Stopped { .. } => {
                assert(false);
            },
        }
    }
    out.append("}\n");
    proof {
        assert(out@ == preamble() + body + postamble());
    }
    Ok(out)
}

} // verus!
